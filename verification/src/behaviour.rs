//! What each call and each query does, told by the fields of what goes in and of
//! what comes out.

use cosmwasm_std::StdError;
use vstd::prelude::*;
use vstd::utf8::{decode_utf8_encode_utf8, encode_utf8, valid_utf8};

use crate::admin::{
    admin_list_key, admin_list_response, text_views, validated, version_key, version_result,
    AdminList, AdminListView,
};
use crate::balance::{
    addable_in_place, added_in_place, covered_coins_can_be_spent, distinct, exhausted, first_at,
    lacks, overspent, positive, reduced, reduced_in_place, spending_conserves, spent,
    spent_in_place, spent_in_turn, sub_overflow, total, NativeBalance,
};
use crate::contract::{
    allowance_entry, allowance_info, allowance_info_result, allowance_of, allowance_or_none,
    allowances_read, allowances_result, answers, charge, charge_all, distribution_refusal,
    execute_decrease_allowance_does, execute_does, execute_execute_does, execute_fits,
    execute_increase_allowance_does, execute_set_permissions_does, found_view, instantiate_does,
    page_limit, page_start, permissions_entry, permissions_info, permissions_info_result,
    permissions_of, permissions_read, permissions_result, query_answers, query_result, relayable,
    relayed, staking_refusal, verdict,
};
use crate::error::ContractError;
use crate::json::{
    allowance_json, allowance_object, allowance_parsed, allowance_result, balance_json,
    balance_parsed, comma_free, expiration_json, expiration_parsed, is_allowance_object,
    lemma_parts_unique, parse_failure, permissions_json, permissions_parsed, permissions_read_back,
};
use crate::keys::{accounts_apart, entries_apart};
use crate::laws::{
    allowance_account, allowance_pages_are_faithful, permission_pages_are_faithful,
    permissions_account,
};
use crate::msg::{
    AdminListResponse, AllAllowancesResponse, AllPermissionsResponse, AllowanceInfo,
    AllowanceInfoView, ExecuteMsg, PermissionsInfo, PermissionsInfoView, QueryMsg, QueryResponse,
};
use crate::pages::{
    is_page, listed, reading_fails_at_the_first, reading_skips_nothing, Storage,
};
use crate::state::{
    allowance_found, allowance_key, allowance_namespace, key_view, lemma_names_fit, not_text,
    permissions_key, permissions_namespace, Allowance, AllowanceView, Expiration, Permissions,
    Snapshot,
};
use crate::text::{decimal, key_less, text_less};
use crate::types::{
    attribute_views, coin_views, Attribute, BankMsg, Coin, CoinView, CosmosMsg, DistributionMsg,
    Empty, Response, StakingMsg, SubMsg,
};

verus! {

/// Whether a call fails with an error and changes nothing.
pub open spec fn fails<T>(
    before: Snapshot,
    after: Snapshot,
    res: Result<Response<T>, ContractError>,
    error: ContractError,
) -> bool {
    &&& after.storage == before.storage
    &&& after.addresses == before.addresses
    &&& res is Err
    &&& res->Err_0 == error
}

/// Whether attributes have these keys and values, in this order.
pub open spec fn attributes_are(
    attributes: Seq<Attribute>,
    expected: Seq<(Seq<char>, Seq<char>)>,
) -> bool {
    &&& attributes.len() == expected.len()
    &&& forall|i: int|
        0 <= i < attributes.len() ==> {
            &&& (#[trigger] attributes[i]).key@ == expected[i].0
            &&& attributes[i].value@ == expected[i].1
        }
}

/// Whether a call succeeds, relays nothing, and has these attributes.
pub open spec fn succeeds<T>(
    res: Result<Response<T>, ContractError>,
    expected: Seq<(Seq<char>, Seq<char>)>,
) -> bool {
    &&& res is Ok
    &&& res->Ok_0.messages@.len() == 0
    &&& attributes_are(res->Ok_0.attributes@, expected)
}

/// The attributes of an answer are those that its views show.
proof fn lemma_attributes<T>(
    res: Result<Response<T>, ContractError>,
    messages: Seq<SubMsg<T>>,
    expected: Seq<(Seq<char>, Seq<char>)>,
)
    requires
        answers(res, messages, expected),
    ensures
        attributes_are(res->Ok_0.attributes@, expected),
{
    let attributes = res->Ok_0.attributes@;
    assert forall|i: int| 0 <= i < attributes.len() implies {
        &&& (#[trigger] attributes[i]).key@ == expected[i].0
        &&& attributes[i].value@ == expected[i].1
    } by {
        assert(attribute_views(attributes)[i] == attributes[i]@);
    }
}

/// Execute relays the messages that were given: as many, in their order, each as
/// it came and without a reply. It names who asked.
pub proof fn messages_are_relayed_as_given<T>(
    before: Snapshot,
    after: Snapshot,
    sender: Seq<char>,
    msgs: Vec<CosmosMsg<T>>,
    res: Result<Response<T>, ContractError>,
)
    requires
        execute_does(before, after, sender, ExecuteMsg::Execute { msgs }, res),
        res is Ok,
    ensures
        res->Ok_0.messages@.len() == msgs@.len(),
        forall|i: int|
            0 <= i < msgs@.len() ==> {
                &&& (#[trigger] res->Ok_0.messages@[i]).msg == msgs@[i]
                &&& res->Ok_0.messages@[i].id == 0
                &&& res->Ok_0.messages@[i].gas_limit is None
                &&& res->Ok_0.messages@[i].reply_on is Never
            },
        attributes_are(
            res->Ok_0.attributes@,
            seq![("action"@, "execute"@), ("owner"@, sender)],
        ),
{
    relayed_as_given(before, after, sender, msgs@, res);
}

/// Relaying relays the messages that were given: as many, in their order, each as
/// it came and without a reply. It names who asked.
pub proof fn relayed_as_given<T>(
    before: Snapshot,
    after: Snapshot,
    sender: Seq<char>,
    msgs: Seq<CosmosMsg<T>>,
    res: Result<Response<T>, ContractError>,
)
    requires
        execute_execute_does(before, after, sender, msgs, res),
        res is Ok,
    ensures
        res->Ok_0.messages@.len() == msgs.len(),
        forall|i: int|
            0 <= i < msgs.len() ==> {
                &&& (#[trigger] res->Ok_0.messages@[i]).msg == msgs[i]
                &&& res->Ok_0.messages@[i].id == 0
                &&& res->Ok_0.messages@[i].gas_limit is None
                &&& res->Ok_0.messages@[i].reply_on is Never
            },
        attributes_are(
            res->Ok_0.attributes@,
            seq![("action"@, "execute"@), ("owner"@, sender)],
        ),
{
    lemma_attributes(res, relayed(msgs), seq![("action"@, "execute"@), ("owner"@, sender)]);
    assert(res->Ok_0.messages@ == relayed(msgs));
}

/// A call does what the function of its own name does, with what was given and
/// nothing else, whatever that is.
pub proof fn calls_do_what_they_name<T>(
    before: Snapshot,
    after: Snapshot,
    sender: Seq<char>,
    msgs: Vec<CosmosMsg<T>>,
    spender: String,
    amount: Coin,
    expires: Option<Expiration>,
    permissions: Permissions,
    res: Result<Response<T>, ContractError>,
)
    ensures
        execute_does(before, after, sender, ExecuteMsg::Execute { msgs }, res)
            <==> execute_execute_does(before, after, sender, msgs@, res),
        execute_does(
            before,
            after,
            sender,
            ExecuteMsg::IncreaseAllowance { spender, amount, expires },
            res,
        ) <==> execute_increase_allowance_does(
            before,
            after,
            sender,
            spender@,
            CoinView { denom: amount.denom@, amount: amount.amount },
            expires,
            res,
        ),
        execute_does(
            before,
            after,
            sender,
            ExecuteMsg::DecreaseAllowance { spender, amount, expires },
            res,
        ) <==> execute_decrease_allowance_does(
            before,
            after,
            sender,
            spender@,
            CoinView { denom: amount.denom@, amount: amount.amount },
            expires,
            res,
        ),
        execute_does(
            before,
            after,
            sender,
            ExecuteMsg::SetPermissions { spender, permissions },
            res,
        ) <==> execute_set_permissions_does(
            before,
            after,
            sender,
            spender@,
            permissions,
            res,
        ),
{
}

/// A message is put up to be run as it came, and without a reply.
pub proof fn put_up_as_it_came<T>(msg: CosmosMsg<T>)
    ensures
        SubMsg::fire_and_forget(msg).msg == msg,
        SubMsg::fire_and_forget(msg).id == 0,
        SubMsg::fire_and_forget(msg).gas_limit is None,
        SubMsg::fire_and_forget(msg).reply_on is Never,
{
}

/// Where the admins cannot be read, nothing is relayed. An admin relays anything,
/// and nothing changes.
pub proof fn relaying_asks_for_the_admins<T>(
    before: Snapshot,
    after: Snapshot,
    sender: Seq<char>,
    msgs: Seq<CosmosMsg<T>>,
    res: Result<Response<T>, ContractError>,
)
    requires
        execute_execute_does(before, after, sender, msgs, res),
    ensures
        match before.admin_list() {
            Err(e) => fails(before, after, res, ContractError::Std(e)),
            Ok(list) => list.admins.contains(sender) ==> res is Ok && after == before,
        },
{
}

/// Relaying nothing is allowed to anyone, where the admins can be read.
pub proof fn nothing_can_be_relayed<T>(
    before: Snapshot,
    after: Snapshot,
    sender: Seq<char>,
    res: Result<Response<T>, ContractError>,
)
    requires
        execute_execute_does(before, after, sender, Seq::<CosmosMsg<T>>::empty(), res),
        before.admin_list() is Ok,
    ensures
        res is Ok,
        after == before,
{
}

/// A subkey's staking message is relayed exactly with the permission of its own
/// kind, whatever the other ones are. Without it the error names the kind. Nothing
/// is charged.
pub proof fn staking_is_held_to_the_permissions<T>(
    before: Snapshot,
    after: Snapshot,
    sender: Seq<char>,
    msg: StakingMsg,
    res: Result<Response<T>, ContractError>,
)
    requires
        execute_execute_does(before, after, sender, seq![CosmosMsg::<T>::Staking(msg)], res),
        before.admin_list() is Ok,
        !before.admin_list()->Ok_0.admins.contains(sender),
    ensures
        after == before,
        match before.permissions(sender) {
            Err(e) => fails(before, after, res, ContractError::Std(e)),
            Ok(None) => fails(before, after, res, ContractError::NotAllowed {  }),
            Ok(Some(p)) => match msg {
                StakingMsg::Delegate { .. } => if p.delegate {
                    res is Ok
                } else {
                    fails(before, after, res, ContractError::DelegatePerm {  })
                },
                StakingMsg::Undelegate { .. } => if p.undelegate {
                    res is Ok
                } else {
                    fails(before, after, res, ContractError::UnDelegatePerm {  })
                },
                StakingMsg::Redelegate { .. } => if p.redelegate {
                    res is Ok
                } else {
                    fails(before, after, res, ContractError::ReDelegatePerm {  })
                },
            },
        },
{
    lemma_one_message(before, sender, CosmosMsg::<T>::Staking(msg));
}

/// A subkey's distribution message, of either kind, is relayed exactly with the
/// permission to withdraw, whatever the other ones are. Without it the error names
/// the kind. Nothing is charged.
pub proof fn distribution_is_held_to_the_permissions<T>(
    before: Snapshot,
    after: Snapshot,
    sender: Seq<char>,
    msg: DistributionMsg,
    res: Result<Response<T>, ContractError>,
)
    requires
        execute_execute_does(before, after, sender, seq![CosmosMsg::<T>::Distribution(msg)], res),
        before.admin_list() is Ok,
        !before.admin_list()->Ok_0.admins.contains(sender),
    ensures
        after == before,
        match before.permissions(sender) {
            Err(e) => fails(before, after, res, ContractError::Std(e)),
            Ok(None) => fails(before, after, res, ContractError::NotAllowed {  }),
            Ok(Some(p)) => if p.withdraw {
                res is Ok
            } else {
                match msg {
                    DistributionMsg::SetWithdrawAddress { .. } => fails(
                        before,
                        after,
                        res,
                        ContractError::WithdrawAddrPerm {  },
                    ),
                    DistributionMsg::WithdrawDelegatorReward { .. } => fails(
                        before,
                        after,
                        res,
                        ContractError::WithdrawPerm {  },
                    ),
                }
            },
        },
{
    lemma_one_message(before, sender, CosmosMsg::<T>::Distribution(msg));
}

/// A subkey's message of any other kind than a send, staking or distribution is
/// refused.
pub proof fn other_messages_are_refused<T>(
    before: Snapshot,
    after: Snapshot,
    sender: Seq<char>,
    msg: CosmosMsg<T>,
    res: Result<Response<T>, ContractError>,
)
    requires
        execute_execute_does(before, after, sender, seq![msg], res),
        before.admin_list() is Ok,
        !before.admin_list()->Ok_0.admins.contains(sender),
        msg !is Staking,
        msg !is Distribution,
        msg is Bank ==> msg->Bank_0 is Burn,
    ensures
        fails(before, after, res, ContractError::MessageTypeRejected {  }),
{
    lemma_one_message(before, sender, msg);
}

/// Charging a single message.
proof fn lemma_one_message<T>(before: Snapshot, sender: Seq<char>, msg: CosmosMsg<T>)
    ensures
        charge_all(before.permissions(sender), before.allowance(sender), seq![msg])
            == charge(
            before.permissions(sender),
            before.allowance(sender),
            None,
            msg,
        ),
{
    assert(seq![msg].drop_last() =~= Seq::empty());
    reveal_with_fuel(charge_all, 2);
}

/// A subkey's send is charged to its allowance. Without an allowance it is
/// refused. With one, the coins are spent off it and it keeps its expiration; or
/// the send is refused where one of them cannot be spent, and nothing is charged.
pub proof fn a_send_is_charged<T>(
    before: Snapshot,
    after: Snapshot,
    sender: Seq<char>,
    to_address: String,
    amount: Vec<Coin>,
    res: Result<Response<T>, ContractError>,
)
    requires
        execute_execute_does(
            before,
            after,
            sender,
            seq![CosmosMsg::<T>::Bank(BankMsg::Send { to_address, amount })],
            res,
        ),
        before.admin_list() is Ok,
        !before.admin_list()->Ok_0.admins.contains(sender),
    ensures
        match before.allowance(sender) {
            Err(e) => fails(before, after, res, ContractError::Std(e)),
            Ok(None) => fails(before, after, res, ContractError::NoAllowance {  }),
            Ok(Some(held)) => match spent(held.balance, coin_views(amount@)) {
                Some(rest) => {
                    &&& res is Ok
                    &&& after.allowance(sender) is Ok
                    &&& after.allowance(sender)->Ok_0 is Some
                    &&& after.allowance(sender)->Ok_0->Some_0.balance == rest
                    &&& after.allowance(sender)->Ok_0->Some_0.expires == held.expires
                },
                None => fails(
                    before,
                    after,
                    res,
                    ContractError::Std(overspent(held.balance, coin_views(amount@))),
                ),
            },
        },
{
    lemma_one_message(before, sender, CosmosMsg::<T>::Bank(BankMsg::Send { to_address, amount }));
}

/// A send of one coin takes its amount off the first coin of that denomination. A
/// coin of which nothing is left leaves, and nothing else changes. It is refused
/// exactly where there is no such coin, or too little of it.
pub proof fn a_send_of_one_coin<T>(
    before: Snapshot,
    after: Snapshot,
    sender: Seq<char>,
    to_address: String,
    amount: Vec<Coin>,
    held: AllowanceView,
    res: Result<Response<T>, ContractError>,
)
    requires
        execute_execute_does(
            before,
            after,
            sender,
            seq![CosmosMsg::<T>::Bank(BankMsg::Send { to_address, amount })],
            res,
        ),
        before.admin_list() is Ok,
        !before.admin_list()->Ok_0.admins.contains(sender),
        before.allowance(sender) == Ok::<Option<AllowanceView>, StdError>(Some(held)),
        amount@.len() == 1,
    ensures
        ({
            let denom = amount@[0].denom@;
            let asked = amount@[0].amount;
            &&& lacks(held.balance, denom) ==> fails(
                before,
                after,
                res,
                ContractError::Std(sub_overflow(0, asked)),
            )
            &&& forall|i: int| #[trigger]
                first_at(held.balance, denom, i) ==> if held.balance[i].amount < asked {
                    fails(
                        before,
                        after,
                        res,
                        ContractError::Std(sub_overflow(held.balance[i].amount as nat, asked)),
                    )
                } else {
                    &&& res is Ok
                    &&& after.allowance(sender) == Ok::<Option<AllowanceView>, StdError>(
                        Some(
                            AllowanceView {
                                balance: if held.balance[i].amount == asked {
                                    held.balance.remove(i)
                                } else {
                                    held.balance.update(
                                        i,
                                        CoinView {
                                            denom,
                                            amount: (held.balance[i].amount - asked) as u128,
                                        },
                                    )
                                },
                                expires: held.expires,
                            },
                        ),
                    )
                }
        }),
{
    a_send_is_charged(before, after, sender, to_address, amount, res);
    spent_in_place(held.balance, amount@[0]@);
    assert(coin_views(amount@) =~= seq![amount@[0]@]);
}

/// A send of several coins does what sends of its parts, one after the other, do,
/// with the same first error.
pub proof fn a_send_may_come_in_parts<T>(
    before: Snapshot,
    whole: Snapshot,
    between: Snapshot,
    after: Snapshot,
    sender: Seq<char>,
    to_address: String,
    amount: Vec<Coin>,
    a: Vec<Coin>,
    b: Vec<Coin>,
    both: Result<Response<T>, ContractError>,
    first: Result<Response<T>, ContractError>,
    second: Result<Response<T>, ContractError>,
)
    requires
        amount@ == a@ + b@,
        execute_execute_does(
            before,
            whole,
            sender,
            seq![CosmosMsg::<T>::Bank(BankMsg::Send { to_address, amount })],
            both,
        ),
        execute_execute_does(
            before,
            between,
            sender,
            seq![CosmosMsg::<T>::Bank(BankMsg::Send { to_address, amount: a })],
            first,
        ),
        first is Ok ==> execute_execute_does(
            between,
            after,
            sender,
            seq![CosmosMsg::<T>::Bank(BankMsg::Send { to_address, amount: b })],
            second,
        ),
    ensures
        first is Err ==> both is Err && both->Err_0 == first->Err_0,
        first is Ok && second is Err ==> both is Err && both->Err_0 == second->Err_0,
        first is Ok && second is Ok ==> {
            &&& both is Ok
            &&& whole.allowance(sender) == after.allowance(sender)
        },
{
    if before.admin_list() is Ok {
        entries_apart(sender, sender);
        if !before.admin_list()->Ok_0.admins.contains(sender) {
            a_send_is_charged(before, whole, sender, to_address, amount, both);
            a_send_is_charged(before, between, sender, to_address, a, first);
            lemma_one_message(
                before,
                sender,
                CosmosMsg::<T>::Bank(BankMsg::Send { to_address, amount: a }),
            );
            if first is Ok {
                assert(between.admin_list() == before.admin_list());
                a_send_is_charged(between, after, sender, to_address, b, second);
            }
            if let Ok(Some(held)) = before.allowance(sender) {
                spent_in_turn(held.balance, coin_views(a@), coin_views(b@));
                assert(coin_views(amount@) =~= coin_views(a@) + coin_views(b@));
            }
        }
    }
}

/// The check of a staking message passes exactly with the permission of its own
/// kind, and its error names the kind.
pub proof fn staking_check_goes_by_the_flags(
    msg: StakingMsg,
    p: Permissions,
    res: Result<(), ContractError>,
)
    requires
        verdict(res, staking_refusal(msg, p)),
    ensures
        match msg {
            StakingMsg::Delegate { .. } => (res is Ok <==> p.delegate) && (res is Err
                ==> res->Err_0 is DelegatePerm),
            StakingMsg::Undelegate { .. } => (res is Ok <==> p.undelegate) && (res is Err
                ==> res->Err_0 is UnDelegatePerm),
            StakingMsg::Redelegate { .. } => (res is Ok <==> p.redelegate) && (res is Err
                ==> res->Err_0 is ReDelegatePerm),
        },
{
}

/// The check of a distribution message passes exactly with the permission to
/// withdraw, and its error names the kind.
pub proof fn distribution_check_goes_by_the_flag(
    msg: DistributionMsg,
    p: Permissions,
    res: Result<(), ContractError>,
)
    requires
        verdict(res, distribution_refusal(msg, p)),
    ensures
        res is Ok <==> p.withdraw,
        res is Err ==> match msg {
            DistributionMsg::SetWithdrawAddress { .. } => res->Err_0 is WithdrawAddrPerm,
            DistributionMsg::WithdrawDelegatorReward { .. } => res->Err_0 is WithdrawPerm,
        },
{
}

/// Why an account may not be managed, if it may not: the admins cannot be read,
/// the sender is none, the chain refuses the address, or it is the sender's own.
pub open spec fn unmanageable(
    before: Snapshot,
    sender: Seq<char>,
    spender: Seq<char>,
) -> Option<ContractError> {
    if before.admin_list() is Err {
        Some(ContractError::Std(before.admin_list()->Err_0))
    } else if !before.admin_list()->Ok_0.admins.contains(sender) {
        Some(ContractError::Unauthorized {  })
    } else if before.addresses[spender] is Err {
        Some(ContractError::Std(before.addresses[spender]->Err_0))
    } else if before.addresses[spender]->Ok_0 == sender {
        Some(ContractError::CannotSetOwnAccount {  })
    } else {
        None
    }
}

/// SetPermissions succeeds whenever the account may be managed, whatever
/// permissions it had before, and then the account has exactly the given ones. It
/// is refused in no other case.
pub proof fn permissions_can_always_be_set<T>(
    before: Snapshot,
    after: Snapshot,
    sender: Seq<char>,
    spender: String,
    permissions: Permissions,
    res: Result<Response<T>, ContractError>,
)
    requires
        execute_does(
            before,
            after,
            sender,
            ExecuteMsg::SetPermissions { spender, permissions },
            res,
        ),
    ensures
        match unmanageable(before, sender, spender@) {
            Some(error) => fails(before, after, res, error),
            None => {
                let found = after.permissions(before.addresses[spender@]->Ok_0);
                &&& succeeds(
                    res,
                    seq![
                        ("action"@, "set_permissions"@),
                        ("owner"@, sender),
                        ("spender"@, spender@),
                        ("permissions"@, permissions.words()),
                    ],
                )
                &&& found is Ok
                &&& found->Ok_0 is Some
                &&& found->Ok_0->Some_0.delegate == permissions.delegate
                &&& found->Ok_0->Some_0.redelegate == permissions.redelegate
                &&& found->Ok_0->Some_0.undelegate == permissions.undelegate
                &&& found->Ok_0->Some_0.withdraw == permissions.withdraw
            },
        },
{
    if unmanageable(before, sender, spender@) is None {
        lemma_attributes(
            res,
            Seq::empty(),
            seq![
                ("action"@, "set_permissions"@),
                ("owner"@, sender),
                ("spender"@, spender@),
                ("permissions"@, permissions.words()),
            ],
        );
    }
}

/// The coins of an account's allowance, none where it has no allowance.
pub open spec fn coins_of(found: Option<AllowanceView>) -> Seq<CoinView> {
    match found {
        Some(allowance) => allowance.balance,
        None => Seq::empty(),
    }
}

/// The expiration of an account's allowance, never where it has no allowance.
pub open spec fn end_of(found: Option<AllowanceView>) -> Expiration {
    match found {
        Some(allowance) => allowance.expires,
        None => Expiration::Never {  },
    }
}

/// IncreaseAllowance succeeds whenever the account may be managed and its
/// allowance, if it has one, can be read. It is refused in no other case.
pub proof fn increases_succeed<T>(
    before: Snapshot,
    after: Snapshot,
    sender: Seq<char>,
    spender: String,
    amount: Coin,
    expires: Option<Expiration>,
    res: Result<Response<T>, ContractError>,
)
    requires
        execute_does(
            before,
            after,
            sender,
            ExecuteMsg::IncreaseAllowance { spender, amount, expires },
            res,
        ),
    ensures
        match unmanageable(before, sender, spender@) {
            Some(error) => fails(before, after, res, error),
            None => match before.allowance(before.addresses[spender@]->Ok_0) {
                Err(e) => fails(before, after, res, ContractError::Std(e)),
                Ok(_) => succeeds(
                    res,
                    seq![
                        ("action"@, "increase_allowance"@),
                        ("owner"@, sender),
                        ("spender"@, spender@),
                        ("denomination"@, amount.denom@),
                        ("amount"@, decimal(amount.amount as nat)),
                    ],
                ),
            },
        },
{
    if res is Ok {
        lemma_attributes(
            res,
            Seq::empty(),
            seq![
                ("action"@, "increase_allowance"@),
                ("owner"@, sender),
                ("spender"@, spender@),
                ("denomination"@, amount.denom@),
                ("amount"@, decimal(amount.amount as nat)),
            ],
        );
    }
}

/// After an increase that gave an expiration, whichever, the allowance has that
/// one. After one that gave none, it has the one that it had, or never ends where
/// there was no allowance.
pub proof fn increases_set_the_expiration<T>(
    before: Snapshot,
    after: Snapshot,
    sender: Seq<char>,
    spender: String,
    amount: Coin,
    expires: Option<Expiration>,
    res: Result<Response<T>, ContractError>,
)
    requires
        execute_does(
            before,
            after,
            sender,
            ExecuteMsg::IncreaseAllowance { spender, amount, expires },
            res,
        ),
        res is Ok,
    ensures
        ({
            let addr = before.addresses[spender@]->Ok_0;
            &&& before.allowance(addr) is Ok
            &&& after.allowance(addr) is Ok
            &&& after.allowance(addr)->Ok_0 is Some
            &&& after.allowance(addr)->Ok_0->Some_0.expires == if expires is Some {
                expires->Some_0
            } else {
                end_of(before.allowance(addr)->Ok_0)
            }
        }),
{
}

/// An increase adds to the first coin of the denomination, or puts the coin in
/// behind all lesser denominations that stand in front. No other coin changes.
pub proof fn increases_add_the_coin<T>(
    before: Snapshot,
    after: Snapshot,
    sender: Seq<char>,
    spender: String,
    amount: Coin,
    expires: Option<Expiration>,
    res: Result<Response<T>, ContractError>,
)
    requires
        execute_fits(
            before,
            sender,
            ExecuteMsg::<T>::IncreaseAllowance { spender, amount, expires },
        ),
        execute_does(
            before,
            after,
            sender,
            ExecuteMsg::IncreaseAllowance { spender, amount, expires },
            res,
        ),
        res is Ok,
    ensures
        ({
            let addr = before.addresses[spender@]->Ok_0;
            let old = coins_of(before.allowance(addr)->Ok_0);
            let new = coins_of(after.allowance(addr)->Ok_0);
            let coin = CoinView { denom: amount.denom@, amount: amount.amount };
            &&& forall|i: int| #[trigger]
                first_at(old, coin.denom, i) ==> {
                    &&& old[i].amount + coin.amount <= u128::MAX
                    &&& new == old.update(
                        i,
                        CoinView {
                            denom: coin.denom,
                            amount: (old[i].amount + coin.amount) as u128,
                        },
                    )
                }
            &&& lacks(old, coin.denom) ==> exists|p: int|
                {
                    &&& 0 <= p <= old.len()
                    &&& new == #[trigger] old.insert(p, coin)
                    &&& forall|j: int|
                        0 <= j < p ==> text_less(
                            (#[trigger] old[j]).denom,
                            coin.denom,
                        )
                    &&& p < old.len() ==> !text_less(old[p].denom, coin.denom)
                }
        }),
{
    let addr = before.addresses[spender@]->Ok_0;
    let old = coins_of(before.allowance(addr)->Ok_0);
    assert(old =~= allowance_or_none(before.allowance(addr)->Ok_0).balance);
    addable_in_place(old, amount@);
    added_in_place(old, amount@);
}

/// A call does not fit exactly where it is an increase that would succeed and the
/// first coin of the denomination would be more than an amount can be.
pub proof fn only_sums_do_not_fit<T>(before: Snapshot, sender: Seq<char>, msg: ExecuteMsg<T>)
    ensures
        msg !is IncreaseAllowance ==> execute_fits(before, sender, msg),
        msg matches ExecuteMsg::IncreaseAllowance { spender, amount, .. } ==> {
            let addr = before.addresses[spender@]->Ok_0;
            let old = coins_of(before.allowance(addr)->Ok_0);
            execute_fits(before, sender, msg) <==> unmanageable(before, sender, spender@) is Some
                || before.allowance(addr) is Err || forall|i: int| #[trigger]
                first_at(old, amount.denom@, i) ==> old[i].amount + amount.amount <= u128::MAX
        },
{
    if let ExecuteMsg::IncreaseAllowance { spender, amount, .. } = msg {
        let addr = before.addresses[spender@]->Ok_0;
        let old = coins_of(before.allowance(addr)->Ok_0);
        if before.allowance(addr) is Ok {
            assert(old =~= allowance_or_none(before.allowance(addr)->Ok_0).balance);
            addable_in_place(old, amount@);
        }
    }
}

/// DecreaseAllowance succeeds exactly where the account may be managed, its
/// allowance can be read, and the allowance has a coin of the denomination,
/// whatever its amount.
pub proof fn decreases_succeed<T>(
    before: Snapshot,
    after: Snapshot,
    sender: Seq<char>,
    spender: String,
    amount: Coin,
    expires: Option<Expiration>,
    res: Result<Response<T>, ContractError>,
)
    requires
        execute_does(
            before,
            after,
            sender,
            ExecuteMsg::DecreaseAllowance { spender, amount, expires },
            res,
        ),
    ensures
        match unmanageable(before, sender, spender@) {
            Some(error) => fails(before, after, res, error),
            None => match before.allowance(before.addresses[spender@]->Ok_0) {
                Err(e) => fails(before, after, res, ContractError::Std(e)),
                Ok(None) => fails(before, after, res, ContractError::NoAllowance {  }),
                Ok(Some(held)) => if lacks(held.balance, amount.denom@) {
                    fails(
                        before,
                        after,
                        res,
                        ContractError::Std(sub_overflow(0, amount.amount)),
                    )
                } else {
                    succeeds(
                        res,
                        seq![
                            ("action"@, "decrease_allowance"@),
                            ("owner"@, sender),
                            ("spender"@, spender@),
                            ("denomination"@, amount.denom@),
                            ("amount"@, decimal(amount.amount as nat)),
                        ],
                    )
                },
            },
        },
{
    if unmanageable(before, sender, spender@) is None {
        if let Ok(Some(held)) = before.allowance(before.addresses[spender@]->Ok_0) {
            reduced_in_place(held.balance, amount@);
        }
    }
    if res is Ok {
        lemma_attributes(
            res,
            Seq::empty(),
            seq![
                ("action"@, "decrease_allowance"@),
                ("owner"@, sender),
                ("spender"@, spender@),
                ("denomination"@, amount.denom@),
                ("amount"@, decimal(amount.amount as nat)),
            ],
        );
    }
}

/// Whether no coin is worth anything.
pub open spec fn worthless(coins: Seq<CoinView>) -> bool {
    forall|i: int| 0 <= i < coins.len() ==> (#[trigger] coins[i]).amount == 0
}

/// A decrease takes up to its amount off the first coin of the denomination. A
/// coin of which nothing is left leaves, and no other coin changes. The allowance
/// then has the expiration that was given, or else the one that it had. Where no
/// coin is worth anything any more, there is no allowance.
pub proof fn decreases_take_the_coin<T>(
    before: Snapshot,
    after: Snapshot,
    sender: Seq<char>,
    spender: String,
    amount: Coin,
    expires: Option<Expiration>,
    held: AllowanceView,
    i: int,
    res: Result<Response<T>, ContractError>,
)
    requires
        execute_does(
            before,
            after,
            sender,
            ExecuteMsg::DecreaseAllowance { spender, amount, expires },
            res,
        ),
        res is Ok,
        before.allowance(before.addresses[spender@]->Ok_0) == Ok::<Option<AllowanceView>, StdError>(
            Some(held),
        ),
        first_at(held.balance, amount.denom@, i),
    ensures
        ({
            let rest = if held.balance[i].amount <= amount.amount {
                held.balance.remove(i)
            } else {
                held.balance.update(
                    i,
                    CoinView {
                        denom: amount.denom@,
                        amount: (held.balance[i].amount - amount.amount) as u128,
                    },
                )
            };
            let found = after.allowance(before.addresses[spender@]->Ok_0);
            &&& found is Ok
            &&& worthless(rest) ==> found->Ok_0 is None
            &&& !worthless(rest) ==> {
                &&& found->Ok_0 is Some
                &&& found->Ok_0->Some_0.balance == rest
                &&& found->Ok_0->Some_0.expires == if expires is Some {
                    expires->Some_0
                } else {
                    held.expires
                }
            }
        }),
{
    reduced_in_place(held.balance, amount@);
    assert(first_at(held.balance, amount@.denom, i));
    let rest = reduced(held.balance, amount@)->Some_0;
    assert(exhausted(rest) == worthless(rest));
}

/// Freeze succeeds exactly for an admin while the admins can change. The admins
/// stay the same, and can no longer change.
pub proof fn freezing_is_for_admins_and_once<T>(
    before: Snapshot,
    after: Snapshot,
    sender: Seq<char>,
    res: Result<Response<T>, ContractError>,
)
    requires
        execute_does(before, after, sender, ExecuteMsg::<T>::Freeze {  }, res),
    ensures
        match before.admin_list() {
            Err(e) => fails(before, after, res, ContractError::Std(e)),
            Ok(list) => if list.mutable && list.admins.contains(sender) {
                &&& succeeds(res, seq![("action"@, "freeze"@)])
                &&& after.admin_list() is Ok
                &&& after.admin_list()->Ok_0.admins == list.admins
                &&& !after.admin_list()->Ok_0.mutable
            } else {
                fails(before, after, res, ContractError::Unauthorized {  })
            },
        },
{
    if res is Ok {
        lemma_attributes(res, Seq::empty(), seq![("action"@, "freeze"@)]);
    }
}

/// Whether addresses are what the chain makes of texts, one by one.
pub open spec fn taken(
    addresses: Map<Seq<char>, Result<Seq<char>, StdError>>,
    texts: Seq<String>,
    addrs: Seq<Seq<char>>,
) -> bool {
    &&& addrs.len() == texts.len()
    &&& forall|i: int|
        0 <= i < texts.len() ==> addresses[(#[trigger] texts[i])@] == Ok::<Seq<char>, StdError>(
            addrs[i],
        )
}

/// Whether an error is the one that the chain gives for the first text that it
/// refuses.
pub open spec fn first_refused(
    addresses: Map<Seq<char>, Result<Seq<char>, StdError>>,
    texts: Seq<String>,
    i: int,
    error: StdError,
) -> bool {
    &&& 0 <= i < texts.len()
    &&& addresses[texts[i]@] == Err::<Seq<char>, StdError>(error)
    &&& forall|j: int| 0 <= j < i ==> addresses[(#[trigger] texts[j])@] is Ok
}

/// What the chain makes of some texts, or the error of the first that it refuses.
proof fn lemma_validated(
    addresses: Map<Seq<char>, Result<Seq<char>, StdError>>,
    texts: Seq<String>,
)
    ensures
        validated(addresses, text_views(texts)) is Ok ==> taken(
            addresses,
            texts,
            validated(addresses, text_views(texts))->Ok_0,
        ),
        validated(addresses, text_views(texts)) is Err ==> exists|i: int|
            first_refused(
                addresses,
                texts,
                i,
                validated(addresses, text_views(texts))->Err_0,
            ),
    decreases texts.len(),
{
    let views = text_views(texts);
    if texts.len() > 0 {
        let few = texts.drop_last();
        lemma_validated(addresses, few);
        assert(text_views(few) =~= views.drop_last());
        assert(views.last() == texts.last()@);
        assert forall|i: int| 0 <= i < few.len() implies #[trigger] texts[i] == few[i] by {}
        match validated(addresses, views.drop_last()) {
            Err(e) => {
                assert(validated(addresses, text_views(few))->Err_0 == e);
                let i = choose|i: int| first_refused(addresses, few, i, e);
                assert(first_refused(addresses, few, i, e));
                assert(texts[i] == few[i]);
                assert forall|j: int| 0 <= j < i implies addresses[(
                #[trigger] texts[j])@] is Ok by {
                    assert(few[j] == texts[j]);
                }
                assert(first_refused(addresses, texts, i, e));
                assert(validated(addresses, views)->Err_0 == e);
                assert(first_refused(addresses, texts, i, validated(addresses, views)->Err_0));
            },
            Ok(addrs) => {
                assert forall|i: int| 0 <= i < few.len() implies addresses[(
                #[trigger] texts[i])@] == Ok::<Seq<char>, StdError>(addrs[i]) by {
                    assert(addresses[few[i]@] == Ok::<Seq<char>, StdError>(addrs[i]));
                }
                match addresses[texts.last()@] {
                    Err(e) => {
                        let n = texts.len() - 1;
                        assert forall|j: int| 0 <= j < n implies addresses[(
                        #[trigger] texts[j])@] is Ok by {
                            assert(addresses[few[j]@] is Ok);
                        }
                        assert(first_refused(addresses, texts, n, e));
                        assert(validated(addresses, views)->Err_0 == e);
                        assert(first_refused(
                            addresses,
                            texts,
                            n,
                            validated(addresses, views)->Err_0,
                        ));
                    },
                    Ok(addr) => {
                        let all = addrs.push(addr);
                        assert forall|i: int| 0 <= i < texts.len() implies addresses[(
                        #[trigger] texts[i])@] == Ok::<Seq<char>, StdError>(all[i]) by {
                            if i < few.len() {
                                assert(all[i] == addrs[i]);
                            }
                        }
                        assert(taken(addresses, texts, all));
                    },
                }
            },
        }
    }
}

/// UpdateAdmins succeeds exactly for an admin while the admins can change, and
/// where the chain takes all the new ones. These are then the admins, in the order
/// given, and can still change.
pub proof fn admins_are_replaced_by_those_given<T>(
    before: Snapshot,
    after: Snapshot,
    sender: Seq<char>,
    admins: Vec<String>,
    res: Result<Response<T>, ContractError>,
)
    requires
        execute_does(before, after, sender, ExecuteMsg::<T>::UpdateAdmins { admins }, res),
    ensures
        match before.admin_list() {
            Err(e) => fails(before, after, res, ContractError::Std(e)),
            Ok(list) => if !(list.mutable && list.admins.contains(sender)) {
                fails(before, after, res, ContractError::Unauthorized {  })
            } else if forall|i: int|
                0 <= i < admins@.len() ==> before.addresses[(#[trigger] admins@[i])@] is Ok {
                &&& succeeds(res, seq![("action"@, "update_admins"@)])
                &&& after.admin_list() is Ok
                &&& taken(before.addresses, admins@, after.admin_list()->Ok_0.admins)
                &&& after.admin_list()->Ok_0.mutable
            } else {
                exists|i: int, e: StdError| #[trigger]
                    first_refused(before.addresses, admins@, i, e) && fails(
                        before,
                        after,
                        res,
                        ContractError::Std(e),
                    )
            },
        },
{
    lemma_validated(before.addresses, admins@);
    if let Err(e) = validated(before.addresses, text_views(admins@)) {
        let i = choose|i: int| first_refused(before.addresses, admins@, i, e);
        assert(first_refused(before.addresses, admins@, i, e));
        assert(before.addresses[admins@[i]@] is Err);
    }
    if res is Ok {
        lemma_attributes(res, Seq::empty(), seq![("action"@, "update_admins"@)]);
    }
}

/// Setting up succeeds exactly where the chain takes all admins. They are then the
/// admins, in the order given, and can change as asked. The contract's own name
/// and version are recorded, and no other entry changes. Where it fails, the
/// admins are as they were.
pub proof fn setting_up_keeps_the_admins(
    before: Snapshot,
    after: Snapshot,
    admins: Vec<String>,
    mutable: bool,
    res: Result<Response<Empty>, StdError>,
)
    requires
        instantiate_does(before, after, text_views(admins@), mutable, res),
    ensures
        after.addresses == before.addresses,
        forall|key: Seq<u8>|
            key != encode_utf8("admin_list"@) && key != encode_utf8("contract_info"@) ==> (
            #[trigger] after.storage.contains_key(key) == before.storage.contains_key(key)) && (
            before.storage.contains_key(key) ==> after.storage[key] == before.storage[key]),
        if forall|i: int|
            0 <= i < admins@.len() ==> before.addresses[(#[trigger] admins@[i])@] is Ok {
            &&& res is Ok
            &&& res->Ok_0.messages@.len() == 0
            &&& res->Ok_0.attributes@.len() == 0
            &&& after.admin_list() is Ok
            &&& taken(before.addresses, admins@, after.admin_list()->Ok_0.admins)
            &&& after.admin_list()->Ok_0.mutable == mutable
            &&& after.version() == Ok::<(Seq<char>, Seq<char>), StdError>(
                ("crates.io:cw1-subkeys"@, "0.7.0"@),
            )
        } else {
            &&& after.admin_list() == before.admin_list()
            &&& exists|i: int, e: StdError| #[trigger]
                first_refused(before.addresses, admins@, i, e) && res is Err && res->Err_0 == e
        },
{
    entries_apart(seq![], seq![]);
    lemma_validated(before.addresses, admins@);
    if let Err(e) = validated(before.addresses, text_views(admins@)) {
        let i = choose|i: int| first_refused(before.addresses, admins@, i, e);
        assert(first_refused(before.addresses, admins@, i, e));
        assert(before.addresses[admins@[i]@] is Err);
    }
}

/// CanExecute answers yes to an admin for every message, of whatever kind.
pub proof fn admins_can_execute_anything<T>(
    chain: Snapshot,
    sender: Seq<char>,
    msg: CosmosMsg<T>,
)
    requires
        chain.admin_list() is Ok,
        chain.admin_list()->Ok_0.admins.contains(sender),
    ensures
        relayable(chain, sender, msg) is Ok,
        relayable(chain, sender, msg)->Ok_0,
{
}

/// CanExecute fails where the admins cannot be read, and where the chain refuses
/// the sender, unless that is an admin.
pub proof fn can_execute_fails_where_it_cannot_know<T>(
    chain: Snapshot,
    sender: Seq<char>,
    msg: CosmosMsg<T>,
)
    ensures
        match chain.admin_list() {
            Err(e) => relayable(chain, sender, msg) == Err::<bool, StdError>(e),
            Ok(list) => !list.admins.contains(sender) && chain.addresses[sender] is Err
                ==> relayable(chain, sender, msg) == Err::<bool, StdError>(
                chain.addresses[sender]->Err_0,
            ),
        },
{
}

/// CanExecute answers a subkey by its account: yes to a staking message exactly
/// with the permission of its own kind, no without permissions; yes to a send
/// exactly where its coins, whatever they are, can be spent off the allowance, no
/// without an allowance; and no to messages of other kinds.
pub proof fn can_execute_goes_by_the_flags<T>(
    chain: Snapshot,
    sender: Seq<char>,
    addr: Seq<char>,
    msg: CosmosMsg<T>,
)
    requires
        chain.admin_list() is Ok,
        !chain.admin_list()->Ok_0.admins.contains(sender),
        chain.addresses[sender] == Ok::<Seq<char>, StdError>(addr),
    ensures
        match msg {
            CosmosMsg::Staking(m) => match chain.permissions(addr) {
                Err(e) => relayable(chain, sender, msg) == Err::<bool, StdError>(e),
                Ok(None) => relayable(chain, sender, msg) == Ok::<bool, StdError>(false),
                Ok(Some(p)) => relayable(chain, sender, msg) == Ok::<bool, StdError>(
                    match m {
                        StakingMsg::Delegate { .. } => p.delegate,
                        StakingMsg::Undelegate { .. } => p.undelegate,
                        StakingMsg::Redelegate { .. } => p.redelegate,
                    },
                ),
            },
            CosmosMsg::Bank(BankMsg::Send { amount, .. }) => match chain.allowance(addr) {
                Err(e) => relayable(chain, sender, msg) == Err::<bool, StdError>(e),
                Ok(None) => relayable(chain, sender, msg) == Ok::<bool, StdError>(false),
                Ok(Some(held)) => relayable(chain, sender, msg) == Ok::<bool, StdError>(
                    spent(held.balance, coin_views(amount@)) is Some,
                ),
            },
            _ => relayable(chain, sender, msg) == Ok::<bool, StdError>(false),
        },
{
}

/// CanExecute answers yes to a subkey's send of coins that are worth something
/// exactly where its allowance, which names no denomination twice, covers them all
/// in every denomination.
pub proof fn can_execute_goes_by_the_allowance<T>(
    chain: Snapshot,
    sender: Seq<char>,
    addr: Seq<char>,
    to_address: String,
    amount: Vec<Coin>,
    held: AllowanceView,
)
    requires
        chain.admin_list() is Ok,
        !chain.admin_list()->Ok_0.admins.contains(sender),
        chain.addresses[sender] == Ok::<Seq<char>, StdError>(addr),
        chain.allowance(addr) == Ok::<Option<AllowanceView>, StdError>(Some(held)),
        distinct(held.balance),
        positive(coin_views(amount@)),
    ensures
        relayable(
            chain,
            sender,
            CosmosMsg::<T>::Bank(BankMsg::Send { to_address, amount }),
        ) == Ok::<bool, StdError>(
            forall|d: Seq<char>| #[trigger]
                total(coin_views(amount@), d) <= total(held.balance, d),
        ),
{
    let coins = coin_views(amount@);
    if forall|d: Seq<char>| #[trigger] total(coins, d) <= total(held.balance, d) {
        covered_coins_can_be_spent(held.balance, coins);
    }
    if spent(held.balance, coins) is Some {
        assert forall|d: Seq<char>| #[trigger] total(coins, d) <= total(held.balance, d) by {
            spending_conserves(held.balance, coins, d);
        }
    }
}

/// A query for an allowance gives the one that the account has. An account without
/// one, and a text that the chain refuses, give no coins, and an expiration of never.
pub proof fn queried_allowances_are_those_kept(chain: Snapshot, spender: Seq<char>)
    ensures
        match chain.addresses[spender] {
            Err(_) => {
                &&& allowance_of(chain, spender) is Ok
                &&& allowance_of(chain, spender)->Ok_0.balance.len() == 0
                &&& allowance_of(chain, spender)->Ok_0.expires is Never
            },
            Ok(addr) => match chain.allowance(addr) {
                Err(e) => allowance_of(chain, spender) == Err::<AllowanceView, StdError>(e),
                Ok(None) => {
                    &&& allowance_of(chain, spender) is Ok
                    &&& allowance_of(chain, spender)->Ok_0.balance.len() == 0
                    &&& allowance_of(chain, spender)->Ok_0.expires is Never
                },
                Ok(Some(held)) => {
                    &&& allowance_of(chain, spender) is Ok
                    &&& allowance_of(chain, spender)->Ok_0.balance == held.balance
                    &&& allowance_of(chain, spender)->Ok_0.expires == held.expires
                },
            },
        },
{
}

/// A query for permissions gives those that the account has. An account without
/// any has no flag set.
pub proof fn queried_permissions_are_those_kept(chain: Snapshot, spender: Seq<char>)
    ensures
        match chain.addresses[spender] {
            Err(e) => permissions_of(chain, spender) == Err::<Permissions, StdError>(e),
            Ok(addr) => match chain.permissions(addr) {
                Err(e) => permissions_of(chain, spender) == Err::<Permissions, StdError>(e),
                Ok(None) => {
                    let p = permissions_of(chain, spender)->Ok_0;
                    &&& permissions_of(chain, spender) is Ok
                    &&& !p.delegate && !p.redelegate && !p.undelegate && !p.withdraw
                },
                Ok(Some(held)) => permissions_of(chain, spender) == Ok::<Permissions, StdError>(
                    held,
                ),
            },
        },
{
}

/// A page holds as many entries as were asked for, ten where nothing was said, but
/// no more than thirty.
pub proof fn limits_are_kept(limit: Option<u32>)
    ensures
        page_limit(limit) <= 30,
        limit is None ==> page_limit(limit) == 10,
        limit is Some && limit->Some_0 <= 30 ==> page_limit(limit) == limit->Some_0,
        limit is Some && limit->Some_0 > 30 ==> page_limit(limit) == 30,
{
}

/// A page starts after the bytes of the given account, or at the beginning.
pub proof fn pages_start_where_asked(start_after: Option<String>)
    ensures
        start_after is None ==> page_start(start_after) is None,
        start_after is Some ==> page_start(start_after) == Some(
            encode_utf8(start_after->Some_0@),
        ),
{
}

/// Every query is answered by what it asks for.
pub proof fn queries_are_answered_as_asked<T>(
    chain: Snapshot,
    msg: QueryMsg<T>,
    res: Result<QueryResponse, StdError>,
)
    requires
        query_answers(chain, msg, query_result(res)),
    ensures
        match msg {
            QueryMsg::AdminList {  } => match chain.admin_list() {
                Err(e) => res is Err && res->Err_0 == e,
                Ok(list) => {
                    &&& res is Ok
                    &&& res->Ok_0 is AdminList
                    &&& res->Ok_0->AdminList_0.mutable == list.mutable
                    &&& res->Ok_0->AdminList_0.admins@.len() == list.admins.len()
                    &&& forall|i: int|
                        0 <= i < list.admins.len() ==> (
                        #[trigger] res->Ok_0->AdminList_0.admins@[i])@ == list.admins[i]
                },
            },
            QueryMsg::Allowance { spender } => match allowance_of(chain, spender@) {
                Err(e) => res is Err && res->Err_0 == e,
                Ok(held) => {
                    &&& res is Ok
                    &&& res->Ok_0 is Allowance
                    &&& coins_are(res->Ok_0->Allowance_0.balance, held.balance)
                    &&& res->Ok_0->Allowance_0.expires == held.expires
                },
            },
            QueryMsg::Permissions { spender } => match permissions_of(chain, spender@) {
                Err(e) => res is Err && res->Err_0 == e,
                Ok(held) => {
                    &&& res is Ok
                    &&& res->Ok_0 is Permissions
                    &&& res->Ok_0->Permissions_0 == held
                },
            },
            QueryMsg::CanExecute { sender, msg } => match relayable(chain, sender@, msg) {
                Err(e) => res is Err && res->Err_0 == e,
                Ok(yes) => {
                    &&& res is Ok
                    &&& res->Ok_0 is CanExecute
                    &&& res->Ok_0->CanExecute_0.can_execute == yes
                },
            },
            QueryMsg::AllAllowances { start_after, limit } => {
                &&& res is Ok ==> {
                    &&& res->Ok_0 is AllAllowances
                    &&& allowances_are_paged(
                        chain,
                        start_after,
                        limit,
                        res->Ok_0->AllAllowances_0.allowances@,
                    )
                }
                &&& res is Err ==> allowances_read(
                    chain.storage,
                    start_after,
                    limit,
                    Err(res->Err_0),
                )
            },
            QueryMsg::AllPermissions { start_after, limit } => {
                &&& res is Ok ==> {
                    &&& res->Ok_0 is AllPermissions
                    &&& permissions_are_paged(
                        chain,
                        start_after,
                        limit,
                        res->Ok_0->AllPermissions_0.permissions@,
                    )
                }
                &&& res is Err ==> permissions_read(
                    chain.storage,
                    start_after,
                    limit,
                    Err(res->Err_0),
                )
            },
        },
{
    match msg {
        QueryMsg::AdminList {  } => {
            if let Ok(list) = chain.admin_list() {
                assert forall|i: int| 0 <= i < list.admins.len() implies (
                #[trigger] res->Ok_0->AdminList_0.admins@[i])@ == list.admins[i] by {
                    assert(text_views(res->Ok_0->AdminList_0.admins@)[i]
                        == res->Ok_0->AdminList_0.admins@[i]@);
                }
            }
        },
        QueryMsg::Allowance { spender } => {
            if res is Ok {
                lemma_coins_are(res->Ok_0->Allowance_0.balance);
            }
        },
        QueryMsg::AllAllowances { start_after, limit } => {
            if res is Ok {
                allowances_come_in_pages(
                    chain,
                    start_after,
                    limit,
                    Ok(res->Ok_0->AllAllowances_0),
                );
            }
        },
        QueryMsg::AllPermissions { start_after, limit } => {
            if res is Ok {
                permissions_come_in_pages(
                    chain,
                    start_after,
                    limit,
                    Ok(res->Ok_0->AllPermissions_0),
                );
            }
        },
        _ => {},
    }
}

/// Whether a balance has these coins, in this order.
pub open spec fn coins_are(balance: NativeBalance, coins: Seq<CoinView>) -> bool {
    &&& balance.0@.len() == coins.len()
    &&& forall|i: int|
        0 <= i < coins.len() ==> {
            &&& (#[trigger] balance.0@[i]).denom@ == coins[i].denom
            &&& balance.0@[i].amount == coins[i].amount
        }
}

/// A balance has the coins that its view shows.
proof fn lemma_coins_are(balance: NativeBalance)
    ensures
        coins_are(balance, balance@),
{
    assert forall|i: int| 0 <= i < balance@.len() implies {
        &&& (#[trigger] balance.0@[i]).denom@ == balance@[i].denom
        &&& balance.0@[i].amount == balance@[i].amount
    } by {
        assert(balance@[i] == balance.0@[i]@);
    }
}

/// Whether a page of allowances is as long as was asked at most, lists accounts in
/// ascending order after the one given, each with the allowance that is kept for
/// it, and skips no account that has one.
pub open spec fn allowances_are_paged(
    chain: Snapshot,
    start_after: Option<String>,
    limit: Option<u32>,
    page: Seq<AllowanceInfo>,
) -> bool {
    &&& page.len() <= 30
    &&& limit is None ==> page.len() <= 10
    &&& limit is Some ==> page.len() <= limit->Some_0
    &&& forall|i: int|
        0 <= i < page.len() ==> {
            let found = chain.allowance((#[trigger] page[i]).spender@);
            &&& found is Ok
            &&& found->Ok_0 is Some
            &&& coins_are(page[i].balance, found->Ok_0->Some_0.balance)
            &&& page[i].expires == found->Ok_0->Some_0.expires
            &&& start_after is Some ==> key_less(
                encode_utf8(start_after->Some_0@),
                encode_utf8(page[i].spender@),
            )
        }
    &&& forall|i: int, j: int|
        0 <= i < j < page.len() ==> key_less(
            encode_utf8((#[trigger] page[i]).spender@),
            encode_utf8((#[trigger] page[j]).spender@),
        )
    &&& forall|a: Seq<char>|
        chain.storage.contains_key(#[trigger] allowance_key(a)) && (start_after is Some
            ==> key_less(encode_utf8(start_after->Some_0@), encode_utf8(a))) ==> {
            ||| exists|i: int| 0 <= i < page.len() && (#[trigger] page[i]).spender@ == a
            ||| {
                &&& page.len() == 30 || (limit is None && page.len() == 10) || (limit is Some
                    && page.len() == limit->Some_0)
                &&& forall|i: int|
                    0 <= i < page.len() ==> key_less(
                        encode_utf8((#[trigger] page[i]).spender@),
                        encode_utf8(a),
                    )
            }
        }
}

/// Whether a page of permissions is as long as was asked at most, lists accounts in
/// ascending order after the one given, each with the permissions that are kept
/// for it, and skips no account that has any.
pub open spec fn permissions_are_paged(
    chain: Snapshot,
    start_after: Option<String>,
    limit: Option<u32>,
    page: Seq<PermissionsInfo>,
) -> bool {
    &&& page.len() <= 30
    &&& limit is None ==> page.len() <= 10
    &&& limit is Some ==> page.len() <= limit->Some_0
    &&& forall|i: int|
        0 <= i < page.len() ==> {
            let found = chain.permissions((#[trigger] page[i]).spender@);
            &&& found is Ok
            &&& found->Ok_0 is Some
            &&& page[i].permissions == found->Ok_0->Some_0
            &&& start_after is Some ==> key_less(
                encode_utf8(start_after->Some_0@),
                encode_utf8(page[i].spender@),
            )
        }
    &&& forall|i: int, j: int|
        0 <= i < j < page.len() ==> key_less(
            encode_utf8((#[trigger] page[i]).spender@),
            encode_utf8((#[trigger] page[j]).spender@),
        )
    &&& forall|a: Seq<char>|
        chain.storage.contains_key(#[trigger] permissions_key(a)) && (start_after is Some
            ==> key_less(encode_utf8(start_after->Some_0@), encode_utf8(a))) ==> {
            ||| exists|i: int| 0 <= i < page.len() && (#[trigger] page[i]).spender@ == a
            ||| {
                &&& page.len() == 30 || (limit is None && page.len() == 10) || (limit is Some
                    && page.len() == limit->Some_0)
                &&& forall|i: int|
                    0 <= i < page.len() ==> key_less(
                        encode_utf8((#[trigger] page[i]).spender@),
                        encode_utf8(a),
                    )
            }
        }
}

/// A page of allowances that was read is as asked: see `allowances_are_paged`.
pub proof fn allowances_come_in_pages(
    chain: Snapshot,
    start_after: Option<String>,
    limit: Option<u32>,
    res: Result<AllAllowancesResponse, StdError>,
)
    requires
        allowances_read(chain.storage, start_after, limit, allowances_result(res)),
        res is Ok,
    ensures
        allowances_are_paged(chain, start_after, limit, res->Ok_0.allowances@),
{
    let page = res->Ok_0.allowances@;
    let shown = res->Ok_0@;
    let start = page_start(start_after);
    let account = allowance_account();
    let accounts = shown.map_values(account);
    allowance_pages_are_faithful(chain, start_after, limit, shown);
    assert forall|i: int| 0 <= i < page.len() implies {
        &&& #[trigger] shown[i] == page[i]@
        &&& accounts[i] == page[i].spender@
    } by {}
    assert forall|i: int| 0 <= i < page.len() implies {
        let found = chain.allowance((#[trigger] page[i]).spender@);
        &&& found is Ok
        &&& found->Ok_0 is Some
        &&& coins_are(page[i].balance, found->Ok_0->Some_0.balance)
        &&& page[i].expires == found->Ok_0->Some_0.expires
        &&& start_after is Some ==> key_less(
            encode_utf8(start_after->Some_0@),
            encode_utf8(page[i].spender@),
        )
    } by {
        assert(shown[i] == page[i]@);
        assert(accounts[i] == page[i].spender@);
        assert(listed(
            chain.storage,
            allowance_namespace(),
            start,
            encode_utf8(accounts[i]),
        ));
        lemma_coins_are(page[i].balance);
    }
    assert forall|i: int, j: int| 0 <= i < j < page.len() implies key_less(
        encode_utf8((#[trigger] page[i]).spender@),
        encode_utf8((#[trigger] page[j]).spender@),
    ) by {
        assert(accounts[i] == page[i].spender@);
        assert(accounts[j] == page[j].spender@);
        assert(key_less(encode_utf8(accounts[i]), encode_utf8(accounts[j])));
    }
    assert forall|a: Seq<char>|
        chain.storage.contains_key(#[trigger] allowance_key(a)) && (start_after is Some
            ==> key_less(encode_utf8(start_after->Some_0@), encode_utf8(a))) implies {
        ||| exists|i: int| 0 <= i < page.len() && (#[trigger] page[i]).spender@ == a
        ||| {
            &&& page.len() == 30 || (limit is None && page.len() == 10) || (limit is Some
                && page.len() == limit->Some_0)
            &&& forall|i: int|
                0 <= i < page.len() ==> key_less(
                    encode_utf8((#[trigger] page[i]).spender@),
                    encode_utf8(a),
                )
        }
    } by {
        reading_skips_nothing(
            chain.storage,
            allowance_namespace(),
            start,
            page_limit(limit),
            allowance_info(chain.storage),
            account,
            shown,
            a,
        );
        if exists|i: int| 0 <= i < shown.len() && account(#[trigger] shown[i]) == a {
            let i = choose|i: int| 0 <= i < shown.len() && account(#[trigger] shown[i]) == a;
            assert(shown[i] == page[i]@);
            assert(page[i].spender@ == a);
        } else {
            assert forall|i: int| 0 <= i < page.len() implies key_less(
                encode_utf8((#[trigger] page[i]).spender@),
                encode_utf8(a),
            ) by {
                assert(shown[i] == page[i]@);
                assert(key_less(encode_utf8(account(shown[i])), encode_utf8(a)));
            }
        }
    }
}

/// A page of allowances fails exactly where one of its entries does not parse, or its
/// key is no text, with the error of the first such entry.
pub proof fn allowances_fail_at_the_first_bad_entry(
    storage: Storage,
    start_after: Option<String>,
    limit: Option<u32>,
    keys: Seq<Seq<u8>>,
    res: Result<Seq<AllowanceInfoView>, StdError>,
)
    requires
        allowances_read(storage, start_after, limit, res),
        is_page(storage, allowance_namespace(), page_start(start_after), page_limit(limit), keys),
    ensures
        (forall|i: int|
            0 <= i < keys.len() ==> valid_utf8(#[trigger] keys[i]) && allowance_parsed(
                storage[allowance_namespace() + keys[i]],
            ) is Ok) ==> res is Ok,
        forall|i: int|
            0 <= i < keys.len() && !(valid_utf8(#[trigger] keys[i]) && allowance_parsed(
                storage[allowance_namespace() + keys[i]],
            ) is Ok) && (forall|j: int|
                0 <= j < i ==> valid_utf8(#[trigger] keys[j]) && allowance_parsed(
                    storage[allowance_namespace() + keys[j]],
                ) is Ok) ==> {
                let parsed = allowance_parsed(storage[allowance_namespace() + keys[i]]);
                &&& res is Err
                &&& res->Err_0 == if parsed is Err {
                    parsed->Err_0
                } else {
                    not_text(keys[i])
                }
            },
{
    let decode = allowance_info(storage);
    reading_fails_at_the_first(
        storage,
        allowance_namespace(),
        page_start(start_after),
        page_limit(limit),
        decode,
        keys,
        res,
    );
    assert forall|i: int| 0 <= i < keys.len() implies (decode(#[trigger] keys[i]) is Ok <==> (
    valid_utf8(keys[i]) && allowance_parsed(storage[allowance_namespace() + keys[i]]) is Ok)) by {}
    assert forall|i: int|
        0 <= i < keys.len() && !(valid_utf8(#[trigger] keys[i]) && allowance_parsed(
            storage[allowance_namespace() + keys[i]],
        ) is Ok) && (forall|j: int|
            0 <= j < i ==> valid_utf8(#[trigger] keys[j]) && allowance_parsed(
                storage[allowance_namespace() + keys[j]],
            ) is Ok) implies {
        let parsed = allowance_parsed(storage[allowance_namespace() + keys[i]]);
        &&& res is Err
        &&& res->Err_0 == if parsed is Err {
            parsed->Err_0
        } else {
            not_text(keys[i])
        }
    } by {
        assert(decode(keys[i]) is Err);
        assert forall|j: int| 0 <= j < i implies decode(#[trigger] keys[j]) is Ok by {
            assert(valid_utf8(keys[j]));
        }
    }
}

/// A page of permissions that was read is as asked: see `permissions_are_paged`.
pub proof fn permissions_come_in_pages(
    chain: Snapshot,
    start_after: Option<String>,
    limit: Option<u32>,
    res: Result<AllPermissionsResponse, StdError>,
)
    requires
        permissions_read(chain.storage, start_after, limit, permissions_result(res)),
        res is Ok,
    ensures
        permissions_are_paged(chain, start_after, limit, res->Ok_0.permissions@),
{
    let page = res->Ok_0.permissions@;
    let shown = res->Ok_0@;
    let start = page_start(start_after);
    let account = permissions_account();
    let accounts = shown.map_values(account);
    permission_pages_are_faithful(chain, start_after, limit, shown);
    assert forall|i: int| 0 <= i < page.len() implies {
        &&& #[trigger] shown[i] == page[i]@
        &&& accounts[i] == page[i].spender@
    } by {}
    assert forall|i: int| 0 <= i < page.len() implies {
        let found = chain.permissions((#[trigger] page[i]).spender@);
        &&& found is Ok
        &&& found->Ok_0 is Some
        &&& page[i].permissions == found->Ok_0->Some_0
        &&& start_after is Some ==> key_less(
            encode_utf8(start_after->Some_0@),
            encode_utf8(page[i].spender@),
        )
    } by {
        assert(shown[i] == page[i]@);
        assert(accounts[i] == page[i].spender@);
        assert(listed(
            chain.storage,
            permissions_namespace(),
            start,
            encode_utf8(accounts[i]),
        ));
    }
    assert forall|i: int, j: int| 0 <= i < j < page.len() implies key_less(
        encode_utf8((#[trigger] page[i]).spender@),
        encode_utf8((#[trigger] page[j]).spender@),
    ) by {
        assert(accounts[i] == page[i].spender@);
        assert(accounts[j] == page[j].spender@);
        assert(key_less(encode_utf8(accounts[i]), encode_utf8(accounts[j])));
    }
    assert forall|a: Seq<char>|
        chain.storage.contains_key(#[trigger] permissions_key(a)) && (start_after is Some
            ==> key_less(encode_utf8(start_after->Some_0@), encode_utf8(a))) implies {
        ||| exists|i: int| 0 <= i < page.len() && (#[trigger] page[i]).spender@ == a
        ||| {
            &&& page.len() == 30 || (limit is None && page.len() == 10) || (limit is Some
                && page.len() == limit->Some_0)
            &&& forall|i: int|
                0 <= i < page.len() ==> key_less(
                    encode_utf8((#[trigger] page[i]).spender@),
                    encode_utf8(a),
                )
        }
    } by {
        reading_skips_nothing(
            chain.storage,
            permissions_namespace(),
            start,
            page_limit(limit),
            permissions_info(chain.storage),
            account,
            shown,
            a,
        );
        if exists|i: int| 0 <= i < shown.len() && account(#[trigger] shown[i]) == a {
            let i = choose|i: int| 0 <= i < shown.len() && account(#[trigger] shown[i]) == a;
            assert(shown[i] == page[i]@);
            assert(page[i].spender@ == a);
        } else {
            assert forall|i: int| 0 <= i < page.len() implies key_less(
                encode_utf8((#[trigger] page[i]).spender@),
                encode_utf8(a),
            ) by {
                assert(shown[i] == page[i]@);
                assert(key_less(encode_utf8(account(shown[i])), encode_utf8(a)));
            }
        }
    }
}

/// A page of permissions fails exactly where one of its entries does not parse, or its
/// key is no text, with the error of the first such entry.
pub proof fn permissions_fail_at_the_first_bad_entry(
    storage: Storage,
    start_after: Option<String>,
    limit: Option<u32>,
    keys: Seq<Seq<u8>>,
    res: Result<Seq<PermissionsInfoView>, StdError>,
)
    requires
        permissions_read(storage, start_after, limit, res),
        is_page(storage, permissions_namespace(), page_start(start_after), page_limit(limit), keys),
    ensures
        (forall|i: int|
            0 <= i < keys.len() ==> valid_utf8(#[trigger] keys[i]) && permissions_parsed(
                storage[permissions_namespace() + keys[i]],
            ) is Ok) ==> res is Ok,
        forall|i: int|
            0 <= i < keys.len() && !(valid_utf8(#[trigger] keys[i]) && permissions_parsed(
                storage[permissions_namespace() + keys[i]],
            ) is Ok) && (forall|j: int|
                0 <= j < i ==> valid_utf8(#[trigger] keys[j]) && permissions_parsed(
                    storage[permissions_namespace() + keys[j]],
                ) is Ok) ==> {
                let parsed = permissions_parsed(storage[permissions_namespace() + keys[i]]);
                &&& res is Err
                &&& res->Err_0 == if parsed is Err {
                    parsed->Err_0
                } else {
                    not_text(keys[i])
                }
            },
{
    let decode = permissions_info(storage);
    reading_fails_at_the_first(
        storage,
        permissions_namespace(),
        page_start(start_after),
        page_limit(limit),
        decode,
        keys,
        res,
    );
    assert forall|i: int| 0 <= i < keys.len() implies (decode(#[trigger] keys[i]) is Ok <==> (
    valid_utf8(keys[i]) && permissions_parsed(
        storage[permissions_namespace() + keys[i]],
    ) is Ok)) by {}
    assert forall|i: int|
        0 <= i < keys.len() && !(valid_utf8(#[trigger] keys[i]) && permissions_parsed(
            storage[permissions_namespace() + keys[i]],
        ) is Ok) && (forall|j: int|
            0 <= j < i ==> valid_utf8(#[trigger] keys[j]) && permissions_parsed(
                storage[permissions_namespace() + keys[j]],
            ) is Ok) implies {
        let parsed = permissions_parsed(storage[permissions_namespace() + keys[i]]);
        &&& res is Err
        &&& res->Err_0 == if parsed is Err {
            parsed->Err_0
        } else {
            not_text(keys[i])
        }
    } by {
        assert(decode(keys[i]) is Err);
        assert forall|j: int| 0 <= j < i implies decode(#[trigger] keys[j]) is Ok by {
            assert(valid_utf8(keys[j]));
        }
    }
}

/// The number that decimal digits stand for.
pub open spec fn number(digits: Seq<char>) -> int
    decreases digits.len(),
{
    if digits.len() == 0 {
        0
    } else {
        10 * number(digits.drop_last()) + (digits.last() as u32 - '0' as u32)
    }
}

/// An amount in decimal is made of digits, has no needless zero in front, and
/// stands for the amount.
pub proof fn decimal_stands_for_the_amount(n: nat)
    ensures
        number(decimal(n)) == n,
        decimal(n).len() > 0,
        decimal(n).len() > 1 ==> decimal(n)[0] != '0',
        forall|i: int| 0 <= i < decimal(n).len() ==> '0' <= #[trigger] decimal(n)[i] <= '9',
        n > 0 ==> decimal(n)[0] != '0',
    decreases n,
{
    let text = decimal(n);
    if n < 10 {
        assert(text.drop_last() =~= Seq::empty());
        reveal_with_fuel(number, 2);
    } else {
        decimal_stands_for_the_amount(n / 10);
        assert(text.drop_last() =~= decimal(n / 10));
    }
}

/// Permissions in words name every flag with its own value.
pub proof fn words_name_every_flag(p: Permissions)
    ensures
        p.words() == "staking: { delegate: "@ + (if p.delegate {
            "true"@
        } else {
            "false"@
        }) + ", redelegate: "@ + (if p.redelegate {
            "true"@
        } else {
            "false"@
        }) + ", undelegate: "@ + (if p.undelegate {
            "true"@
        } else {
            "false"@
        }) + ", withdraw: "@ + (if p.withdraw {
            "true"@
        } else {
            "false"@
        }) + " }"@,
{
}

/// Permissions are kept as an object that names every flag with its own value, and
/// nothing else parses as permissions.
pub proof fn kept_permissions_name_every_flag(p: Permissions, bytes: Seq<u8>)
    ensures
        permissions_json(p) == encode_utf8(
            "{\"delegate\":"@ + (if p.delegate {
                "true"@
            } else {
                "false"@
            }) + ",\"redelegate\":"@ + (if p.redelegate {
                "true"@
            } else {
                "false"@
            }) + ",\"undelegate\":"@ + (if p.undelegate {
                "true"@
            } else {
                "false"@
            }) + ",\"withdraw\":"@ + (if p.withdraw {
                "true"@
            } else {
                "false"@
            }) + "}"@,
        ),
        permissions_parsed(permissions_json(p)) == Ok::<Permissions, StdError>(p),
        permissions_parsed(bytes) is Ok ==> permissions_json(permissions_parsed(bytes)->Ok_0)
            == bytes,
        (forall|q: Permissions| #[trigger] permissions_json(q) != bytes) ==> permissions_parsed(
            bytes,
        ) == Err::<Permissions, StdError>(
            parse_failure("cw1_subkeys::state::Permissions"@, "not an object of four flags"@),
        ),
{
    permissions_read_back(p);
}

/// Whether an allowance parses as its two parts do. The error of the balance comes
/// first.
pub open spec fn parts_parse(
    balance: Seq<u8>,
    expires: Seq<u8>,
    res: Result<AllowanceView, StdError>,
) -> bool {
    &&& balance_parsed(balance) is Err ==> res == Err::<AllowanceView, StdError>(
        balance_parsed(balance)->Err_0,
    )
    &&& balance_parsed(balance) is Ok && expiration_parsed(expires) is Err ==> res == Err::<
        AllowanceView,
        StdError,
    >(expiration_parsed(expires)->Err_0)
    &&& balance_parsed(balance) is Ok && expiration_parsed(expires) is Ok ==> {
        &&& res is Ok
        &&& res->Ok_0.balance == balance_parsed(balance)->Ok_0
        &&& res->Ok_0.expires == expiration_parsed(expires)->Ok_0
    }
}

/// An allowance is kept as an object of its balance and its expiration. Such an
/// object, and nothing else, parses as an allowance, where its parts parse.
pub proof fn kept_allowances_have_two_parts(a: AllowanceView, bytes: Seq<u8>)
    ensures
        allowance_json(a) == encode_utf8("{\"balance\":"@) + balance_json(a.balance)
            + encode_utf8(",\"expires\":"@) + expiration_json(a.expires) + encode_utf8("}"@),
        allowance_parsed(bytes) is Ok ==> exists|balance: Seq<u8>, expires: Seq<u8>|
            {
                &&& bytes == #[trigger] allowance_object(balance, expires)
                &&& bytes == encode_utf8("{\"balance\":"@) + balance + encode_utf8(
                    ",\"expires\":"@,
                ) + expires + encode_utf8("}"@)
                &&& balance_parsed(balance) == Ok::<Seq<CoinView>, StdError>(
                    allowance_parsed(bytes)->Ok_0.balance,
                )
                &&& expiration_parsed(expires) == Ok::<Expiration, StdError>(
                    allowance_parsed(bytes)->Ok_0.expires,
                )
            },
        forall|balance: Seq<u8>, expires: Seq<u8>|
            bytes == #[trigger] allowance_object(balance, expires) && comma_free(expires)
                ==> parts_parse(balance, expires, allowance_parsed(bytes)),
        (forall|balance: Seq<u8>, expires: Seq<u8>|
            bytes == #[trigger] allowance_object(balance, expires) ==> !comma_free(expires))
            ==> allowance_parsed(bytes) == Err::<AllowanceView, StdError>(
            parse_failure(
                "cw1_subkeys::state::Allowance"@,
                "not an object of a balance and an expiration"@,
            ),
        ),
{
    let found = choose|parts: (Seq<u8>, Seq<u8>)| #[trigger] is_allowance_object(bytes, parts);
    if allowance_parsed(bytes) is Ok {
        assert(is_allowance_object(bytes, found));
        assert(bytes == allowance_object(found.0, found.1));
    }
    if exists|parts: (Seq<u8>, Seq<u8>)| #[trigger] is_allowance_object(bytes, parts) {
        assert(bytes == allowance_object(found.0, found.1));
    }
    assert forall|balance: Seq<u8>, expires: Seq<u8>|
        bytes == #[trigger] allowance_object(balance, expires) && comma_free(expires) implies
        parts_parse(balance, expires, allowance_parsed(bytes)) by {
        assert(is_allowance_object(bytes, (balance, expires)));
        lemma_parts_unique(bytes, (balance, expires), found);
    }
}

/// Every account has its own two entries, under the names of the maps and the
/// bytes of the account. An account has an allowance, or permissions, exactly
/// where there is an entry, and then what it parses to.
pub proof fn accounts_have_what_their_entries_say(chain: Snapshot, a: Seq<char>)
    ensures
        allowance_key(a) == seq![0u8, 10u8] + encode_utf8("allowances"@) + encode_utf8(a),
        permissions_key(a) == seq![0u8, 11u8] + encode_utf8("permissions"@) + encode_utf8(a),
        chain.storage.contains_key(allowance_key(a)) ==> match allowance_parsed(
            chain.storage[allowance_key(a)],
        ) {
            Ok(held) => chain.allowance(a) == Ok::<Option<AllowanceView>, StdError>(Some(held)),
            Err(e) => chain.allowance(a) == Err::<Option<AllowanceView>, StdError>(e),
        },
        !chain.storage.contains_key(allowance_key(a)) ==> chain.allowance(a) == Ok::<
            Option<AllowanceView>,
            StdError,
        >(None),
        chain.storage.contains_key(permissions_key(a)) ==> match permissions_parsed(
            chain.storage[permissions_key(a)],
        ) {
            Ok(held) => chain.permissions(a) == Ok::<Option<Permissions>, StdError>(Some(held)),
            Err(e) => chain.permissions(a) == Err::<Option<Permissions>, StdError>(e),
        },
        !chain.storage.contains_key(permissions_key(a)) ==> chain.permissions(a) == Ok::<
            Option<Permissions>,
            StdError,
        >(None),
        admin_list_key() == encode_utf8("admin_list"@),
        version_key() == encode_utf8("contract_info"@),
{
    lemma_names_fit();
    assert(allowance_key(a) =~= seq![0u8, 10u8] + encode_utf8("allowances"@) + encode_utf8(a));
    assert(permissions_key(a) =~= seq![0u8, 11u8] + encode_utf8("permissions"@) + encode_utf8(a));
}

/// Whether all entries but one are as they were.
pub open spec fn same_but_for(before: Storage, after: Storage, key: Seq<u8>) -> bool {
    forall|k: Seq<u8>|
        k != key ==> (#[trigger] after.contains_key(k) == before.contains_key(k)) && (
        before.contains_key(k) ==> after[k] == before[k])
}

/// A call touches at most one entry of the storage: that of what it is about.
/// Calls never change what the chain takes for an address.
pub proof fn calls_touch_one_entry<T>(
    before: Snapshot,
    after: Snapshot,
    sender: Seq<char>,
    msg: ExecuteMsg<T>,
    res: Result<Response<T>, ContractError>,
)
    requires
        execute_does(before, after, sender, msg, res),
    ensures
        after.addresses == before.addresses,
        match msg {
            ExecuteMsg::Execute { .. } => same_but_for(
                before.storage,
                after.storage,
                allowance_key(sender),
            ),
            ExecuteMsg::Freeze {  } => same_but_for(
                before.storage,
                after.storage,
                encode_utf8("admin_list"@),
            ),
            ExecuteMsg::UpdateAdmins { .. } => same_but_for(
                before.storage,
                after.storage,
                encode_utf8("admin_list"@),
            ),
            ExecuteMsg::IncreaseAllowance { spender, .. } => same_but_for(
                before.storage,
                after.storage,
                allowance_key(before.addresses[spender@]->Ok_0),
            ),
            ExecuteMsg::DecreaseAllowance { spender, .. } => same_but_for(
                before.storage,
                after.storage,
                allowance_key(before.addresses[spender@]->Ok_0),
            ),
            ExecuteMsg::SetPermissions { spender, .. } => same_but_for(
                before.storage,
                after.storage,
                permissions_key(before.addresses[spender@]->Ok_0),
            ),
        },
{
}

/// What a call writes is kept in the form in which it is read.
pub proof fn calls_write_what_they_keep<T>(
    before: Snapshot,
    after: Snapshot,
    sender: Seq<char>,
    msg: ExecuteMsg<T>,
    res: Result<Response<T>, ContractError>,
    addr: Seq<char>,
)
    requires
        execute_does(before, after, sender, msg, res),
    ensures
        after.allowance(addr) != before.allowance(addr) && after.allowance(addr)->Ok_0 is Some
            ==> after.storage[allowance_key(addr)] == allowance_json(
            after.allowance(addr)->Ok_0->Some_0,
        ),
        after.permissions(addr) != before.permissions(addr) ==> after.permissions(addr) is Ok
            && after.permissions(addr)->Ok_0 is Some && after.storage[permissions_key(addr)]
            == permissions_json(after.permissions(addr)->Ok_0->Some_0),
{
    entries_apart(addr, addr);
    entries_apart(sender, addr);
    if addr != sender {
        accounts_apart(addr, sender);
    }
    let spender = match msg {
        ExecuteMsg::IncreaseAllowance { spender, .. } => spender@,
        ExecuteMsg::DecreaseAllowance { spender, .. } => spender@,
        ExecuteMsg::SetPermissions { spender, .. } => spender@,
        _ => sender,
    };
    let other = before.addresses[spender]->Ok_0;
    entries_apart(other, addr);
    entries_apart(addr, other);
    if addr != other {
        accounts_apart(addr, other);
    }
}

/// An entry that is read names its account and has what the bytes say.
pub proof fn entries_read_as_they_are(
    key: Seq<u8>,
    bytes: Seq<u8>,
    allowance: Result<AllowanceInfo, StdError>,
    permissions: Result<PermissionsInfo, StdError>,
)
    requires
        allowance_info_result(allowance) == allowance_entry(key, bytes),
        permissions_info_result(permissions) == permissions_entry(key, bytes),
    ensures
        match allowance_parsed(bytes) {
            Err(e) => allowance is Err && allowance->Err_0 == e,
            Ok(held) => if valid_utf8(key) {
                &&& allowance is Ok
                &&& encode_utf8(allowance->Ok_0.spender@) == key
                &&& coins_are(allowance->Ok_0.balance, held.balance)
                &&& allowance->Ok_0.expires == held.expires
            } else {
                allowance is Err && allowance->Err_0 == not_text(key)
            },
        },
        match permissions_parsed(bytes) {
            Err(e) => permissions is Err && permissions->Err_0 == e,
            Ok(held) => if valid_utf8(key) {
                &&& permissions is Ok
                &&& encode_utf8(permissions->Ok_0.spender@) == key
                &&& permissions->Ok_0.permissions == held
            } else {
                permissions is Err && permissions->Err_0 == not_text(key)
            },
        },
{
    if valid_utf8(key) {
        decode_utf8_encode_utf8(key);
    }
    if allowance is Ok {
        lemma_coins_are(allowance->Ok_0.balance);
    }
}

/// A result stands for its value or its error, and for nothing else.
pub proof fn results_are_carried_over(
    allowance: Result<Allowance, StdError>,
    found: Option<Allowance>,
    loaded: Result<Option<Allowance>, StdError>,
    allowances: Result<AllAllowancesResponse, StdError>,
    permissions: Result<AllPermissionsResponse, StdError>,
    admins: Result<AdminListResponse, StdError>,
    version: Result<(String, String), StdError>,
    start: Option<Vec<u8>>,
)
    ensures
        match allowance {
            Ok(a) => allowance_result(allowance) == Ok::<AllowanceView, StdError>(a@),
            Err(e) => allowance_result(allowance) == Err::<AllowanceView, StdError>(e),
        },
        match found {
            Some(a) => found_view(found) == Some(a@),
            None => found_view(found) is None,
        },
        match loaded {
            Ok(Some(a)) => allowance_found(loaded) == Ok::<Option<AllowanceView>, StdError>(
                Some(a@),
            ),
            Ok(None) => allowance_found(loaded) == Ok::<Option<AllowanceView>, StdError>(None),
            Err(e) => allowance_found(loaded) == Err::<Option<AllowanceView>, StdError>(e),
        },
        match allowances {
            Ok(page) => {
                &&& allowances_result(allowances) is Ok
                &&& allowances_result(allowances)->Ok_0.len() == page.allowances@.len()
                &&& forall|i: int|
                    0 <= i < page.allowances@.len() ==> (#[trigger] allowances_result(
                        allowances,
                    )->Ok_0[i]) == page.allowances@[i]@
            },
            Err(e) => allowances_result(allowances) == Err::<Seq<AllowanceInfoView>, StdError>(e),
        },
        match permissions {
            Ok(page) => {
                &&& permissions_result(permissions) is Ok
                &&& permissions_result(permissions)->Ok_0.len() == page.permissions@.len()
                &&& forall|i: int|
                    0 <= i < page.permissions@.len() ==> (#[trigger] permissions_result(
                        permissions,
                    )->Ok_0[i]) == page.permissions@[i]@
            },
            Err(e) => permissions_result(permissions) == Err::<Seq<PermissionsInfoView>, StdError>(
                e,
            ),
        },
        match admins {
            Ok(list) => admin_list_response(admins) == Ok::<AdminListView, StdError>(list@),
            Err(e) => admin_list_response(admins) == Err::<AdminListView, StdError>(e),
        },
        match version {
            Ok((name, number)) => version_result(version) == Ok::<
                (Seq<char>, Seq<char>),
                StdError,
            >((name@, number@)),
            Err(e) => version_result(version) == Err::<(Seq<char>, Seq<char>), StdError>(e),
        },
        match start {
            Some(key) => key_view(start) == Some(key@),
            None => key_view(start) is None,
        },
{
}

/// What values stand for is what their fields hold.
pub proof fn views_show_the_fields(
    coin: Coin,
    coins: Seq<Coin>,
    attribute: Attribute,
    balance: NativeBalance,
    allowance: Allowance,
    list: AdminList,
    response: AdminListResponse,
    allowance_info: AllowanceInfo,
    permissions_info: PermissionsInfo,
)
    ensures
        coin@.denom == coin.denom@,
        coin@.amount == coin.amount,
        coin_views(coins).len() == coins.len(),
        forall|i: int|
            0 <= i < coins.len() ==> {
                &&& (#[trigger] coin_views(coins)[i]).denom == coins[i].denom@
                &&& coin_views(coins)[i].amount == coins[i].amount
            },
        attribute@.0 == attribute.key@,
        attribute@.1 == attribute.value@,
        coins_are(balance, balance@),
        coins_are(allowance.balance, allowance@.balance),
        allowance@.expires == allowance.expires,
        list@.mutable == list.mutable,
        list@.admins.len() == list.admins@.len(),
        forall|i: int|
            0 <= i < list.admins@.len() ==> (#[trigger] list@.admins[i]) == list.admins@[i]@,
        response@.mutable == response.mutable,
        response@.admins.len() == response.admins@.len(),
        forall|i: int|
            0 <= i < response.admins@.len() ==> (#[trigger] response@.admins[i])
                == response.admins@[i]@,
        allowance_info@.spender == allowance_info.spender@,
        coins_are(allowance_info.balance, allowance_info@.balance),
        allowance_info@.expires == allowance_info.expires,
        permissions_info@.spender == permissions_info.spender@,
        permissions_info@.permissions == permissions_info.permissions,
{
    lemma_coins_are(balance);
    lemma_coins_are(allowance.balance);
    lemma_coins_are(allowance_info.balance);
}

} // verus!
