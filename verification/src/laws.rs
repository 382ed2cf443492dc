//! What holds of all calls and queries together.

use cosmwasm_std::StdError;
use vstd::prelude::*;
use vstd::utf8::encode_utf8;

use crate::admin::admin_list_key;
use crate::balance::{
    adding_adds, adding_commutes, adding_keeps_order, adding_twice_adds_the_sum, amount_of,
    covered_coins_can_be_spent, distinct, distinct_amount, exhausted, exhausted_total, holds,
    ordered, ordered_is_distinct, positive, reduced, reducing_keeps_order, reducing_saturates,
    reducing_undoes_adding, share, spending_keeps_distinct,
    spending_conserves, spending_keeps_order, spent, total,
};
use crate::contract::{
    allowance_info, allowance_of, allowance_or_none, allowances_read, answers, charge_all, current,
    execute_decrease_allowance_does, execute_does, execute_execute_does,
    execute_increase_allowance_does, execute_set_permissions_does, expiration_set, increase_fits,
    instantiate_does, lemma_charge_stops, page_limit, page_start, permissions_info, permissions_of,
    permissions_read, raised, relayable, relayed, settable, MAX_LIMIT,
};
use crate::error::ContractError;
use crate::keys::{accounts_apart, entries_apart};
use crate::msg::{AllowanceInfoView, ExecuteMsg, PermissionsInfoView};
use crate::pages::{
    accounts_complete, accounts_listed, listed, listed_accounts_differ, reading_lists, reading_on,
    reads, walked, walking_reads_all, Storage,
};
use crate::state::{
    allowance_key, allowance_namespace, holding, no_allowance, permissions_key,
    permissions_namespace, AllowanceView, Expiration, Permissions, Snapshot,
};
use crate::types::{coin_views, BankMsg, CoinView, CosmosMsg, Empty, Response, StakingMsg};

verus! {

/// Whether at most one account's allowance changed.
pub open spec fn only_allowance_changed(
    before: Snapshot,
    after: Snapshot,
    addr: Seq<char>,
) -> bool {
    &&& after.addresses == before.addresses
    &&& after.admin_list() == before.admin_list()
    &&& after.version() == before.version()
    &&& forall|a: Seq<char>| #[trigger] after.permissions(a) == before.permissions(a)
    &&& forall|a: Seq<char>|
        a != addr ==> #[trigger] after.allowance(a) == before.allowance(a)
}

/// Whether at most one account's permissions changed.
pub open spec fn only_permissions_changed(
    before: Snapshot,
    after: Snapshot,
    addr: Seq<char>,
) -> bool {
    &&& after.addresses == before.addresses
    &&& after.admin_list() == before.admin_list()
    &&& after.version() == before.version()
    &&& forall|a: Seq<char>| #[trigger] after.allowance(a) == before.allowance(a)
    &&& forall|a: Seq<char>|
        a != addr ==> #[trigger] after.permissions(a) == before.permissions(a)
}

/// Whether at most the admins changed.
pub open spec fn only_admins_changed(before: Snapshot, after: Snapshot) -> bool {
    &&& after.addresses == before.addresses
    &&& after.version() == before.version()
    &&& forall|a: Seq<char>| #[trigger] after.allowance(a) == before.allowance(a)
    &&& forall|a: Seq<char>| #[trigger] after.permissions(a) == before.permissions(a)
}

/// Writing or removing one account's allowance changes nothing else.
proof fn lemma_allowance_frame(before: Snapshot, after: Snapshot, addr: Seq<char>, bytes: Seq<u8>)
    requires
        after.addresses == before.addresses,
        after.storage == before.storage || after.storage == before.storage.remove(
            allowance_key(addr),
        ) || after.storage == before.storage.insert(allowance_key(addr), bytes),
    ensures
        only_allowance_changed(before, after, addr),
{
    entries_apart(addr, addr);
    assert forall|a: Seq<char>| #[trigger] after.permissions(a) == before.permissions(a) by {
        entries_apart(addr, a);
    }
    assert forall|a: Seq<char>| a != addr implies #[trigger] after.allowance(a) == before.allowance(
        a,
    ) by {
        accounts_apart(a, addr);
    }
}

/// Writing one account's permissions changes nothing else.
proof fn lemma_permissions_frame(
    before: Snapshot,
    after: Snapshot,
    addr: Seq<char>,
    bytes: Seq<u8>,
)
    requires
        after.addresses == before.addresses,
        after.storage == before.storage.insert(permissions_key(addr), bytes),
    ensures
        only_permissions_changed(before, after, addr),
{
    entries_apart(addr, addr);
    assert forall|a: Seq<char>| #[trigger] after.allowance(a) == before.allowance(a) by {
        entries_apart(a, addr);
    }
    assert forall|a: Seq<char>| a != addr implies #[trigger] after.permissions(a)
        == before.permissions(a) by {
        accounts_apart(a, addr);
    }
}

/// Writing the admins changes nothing else.
proof fn lemma_admins_frame(before: Snapshot, after: Snapshot, bytes: Seq<u8>)
    requires
        after.addresses == before.addresses,
        after.storage == before.storage.insert(admin_list_key(), bytes),
    ensures
        only_admins_changed(before, after),
{
    entries_apart(seq![], seq![]);
    assert forall|a: Seq<char>| #[trigger] after.allowance(a) == before.allowance(a) by {
        entries_apart(a, a);
    }
    assert forall|a: Seq<char>| #[trigger] after.permissions(a) == before.permissions(a) by {
        entries_apart(a, a);
    }
}

/// Allowances, permissions and admins are independent of each other, and so are
/// accounts: a call changes at most the one thing that it is about, whether it
/// succeeds or not. Relaying changes at most the sender's own allowance. No call
/// changes the recorded version.
pub proof fn calls_are_independent<T>(
    before: Snapshot,
    after: Snapshot,
    sender: Seq<char>,
    msg: ExecuteMsg<T>,
    res: Result<Response<T>, ContractError>,
)
    requires
        execute_does(before, after, sender, msg, res),
    ensures
        match msg {
            ExecuteMsg::Execute { .. } => only_allowance_changed(before, after, sender),
            ExecuteMsg::Freeze {  } => only_admins_changed(before, after),
            ExecuteMsg::UpdateAdmins { .. } => only_admins_changed(before, after),
            ExecuteMsg::IncreaseAllowance { spender, .. } => match before.addresses[spender@] {
                Ok(addr) => only_allowance_changed(before, after, addr),
                Err(_) => after == before,
            },
            ExecuteMsg::DecreaseAllowance { spender, .. } => match before.addresses[spender@] {
                Ok(addr) => only_allowance_changed(before, after, addr),
                Err(_) => after == before,
            },
            ExecuteMsg::SetPermissions { spender, .. } => match before.addresses[spender@] {
                Ok(addr) => only_permissions_changed(before, after, addr),
                Err(_) => after == before,
            },
        },
{
    match msg {
        ExecuteMsg::Execute { .. } => {
            lemma_allowance_frame(
                before,
                after,
                sender,
                after.storage[allowance_key(sender)],
            );
        },
        ExecuteMsg::IncreaseAllowance { spender, .. } => {
            if let Ok(addr) = before.addresses[spender@] {
                lemma_allowance_frame(before, after, addr, after.storage[allowance_key(addr)]);
            }
        },
        ExecuteMsg::DecreaseAllowance { spender, .. } => {
            if let Ok(addr) = before.addresses[spender@] {
                lemma_allowance_frame(before, after, addr, after.storage[allowance_key(addr)]);
            }
        },
        ExecuteMsg::SetPermissions { spender, .. } => {
            if let Ok(addr) = settable(before, sender, spender@) {
                lemma_permissions_frame(before, after, addr, after.storage[permissions_key(addr)]);
            }
        },
        _ => {
            if after != before {
                lemma_admins_frame(
                    before,
                    after,
                    after.storage[admin_list_key()],
                );
            }
        },
    }
}

/// A refused call leaves the chain as it was. The exception is a call that
/// relays several messages: those before the refused one may have been charged
/// to the sender's allowance.
pub proof fn refused_calls_change_nothing<T>(
    before: Snapshot,
    after: Snapshot,
    sender: Seq<char>,
    msg: ExecuteMsg<T>,
    res: Result<Response<T>, ContractError>,
)
    requires
        execute_does(before, after, sender, msg, res),
        res is Err,
        msg matches ExecuteMsg::Execute { msgs } ==> msgs@.len() <= 1,
    ensures
        after == before,
{
    if let ExecuteMsg::Execute { msgs } = msg {
        if msgs@.len() == 1 {
            assert(msgs@.drop_last().len() == 0);
            reveal_with_fuel(charge_all, 2);
        }
    }
}

/// An admin relays any messages, and no allowance is charged.
pub proof fn admins_relay_anything<T>(
    before: Snapshot,
    after: Snapshot,
    sender: Seq<char>,
    msgs: Seq<CosmosMsg<T>>,
    res: Result<Response<T>, ContractError>,
)
    requires
        execute_execute_does(before, after, sender, msgs, res),
        before.admin_list() is Ok,
        before.admin_list()->Ok_0.is_admin(sender),
    ensures
        after == before,
        answers(res, relayed(msgs), seq![("action"@, "execute"@), ("owner"@, sender)]),
{
}

/// Who is not an admin changes neither admins nor permissions, nor the
/// allowance of any other account. All that is left to such a sender is to relay
/// messages: any other call is refused.
pub proof fn only_admins_manage<T>(
    before: Snapshot,
    after: Snapshot,
    sender: Seq<char>,
    msg: ExecuteMsg<T>,
    res: Result<Response<T>, ContractError>,
)
    requires
        execute_does(before, after, sender, msg, res),
        before.admin_list() is Ok,
        !before.admin_list()->Ok_0.is_admin(sender),
    ensures
        only_allowance_changed(before, after, sender),
        msg !is Execute ==> after == before && res is Err && res->Err_0 == (
        ContractError::Unauthorized {  }),
{
    calls_are_independent(before, after, sender, msg, res);
}

/// Once frozen, the admins never change.
pub proof fn frozen_admins_stay<T>(
    before: Snapshot,
    after: Snapshot,
    sender: Seq<char>,
    msg: ExecuteMsg<T>,
    res: Result<Response<T>, ContractError>,
)
    requires
        execute_does(before, after, sender, msg, res),
        before.admin_list() is Ok,
        !before.admin_list()->Ok_0.mutable,
    ensures
        after.admin_list() == before.admin_list(),
{
    calls_are_independent(before, after, sender, msg, res);
}

/// A freeze takes: from then on no call changes the admins.
pub proof fn freeze_freezes<T>(
    before: Snapshot,
    between: Snapshot,
    after: Snapshot,
    sender: Seq<char>,
    res: Result<Response<T>, ContractError>,
    other: Seq<char>,
    msg: ExecuteMsg<T>,
    res_other: Result<Response<T>, ContractError>,
)
    requires
        execute_does(before, between, sender, ExecuteMsg::<T>::Freeze {  }, res),
        res is Ok,
        execute_does(between, after, other, msg, res_other),
    ensures
        before.admin_list() is Ok,
        after.admin_list() is Ok,
        after.admin_list()->Ok_0.admins == before.admin_list()->Ok_0.admins,
        !after.admin_list()->Ok_0.mutable,
{
    frozen_admins_stay(between, after, other, msg, res_other);
}

/// Permissions that were set are the ones that a query gives.
pub proof fn set_permissions_read_back<T>(
    before: Snapshot,
    after: Snapshot,
    sender: Seq<char>,
    spender: Seq<char>,
    permissions: Permissions,
    res: Result<Response<T>, ContractError>,
)
    requires
        execute_set_permissions_does(before, after, sender, spender, permissions, res),
        res is Ok,
    ensures
        permissions_of(after, spender) == Ok::<Permissions, StdError>(permissions),
{
}

/// After an increase, a query gives the allowance that it gave before, with the
/// coin added and with the expiration that was set.
pub proof fn increase_reads_back<T>(
    before: Snapshot,
    after: Snapshot,
    sender: Seq<char>,
    spender: Seq<char>,
    amount: CoinView,
    expires: Option<Expiration>,
    res: Result<Response<T>, ContractError>,
)
    requires
        execute_increase_allowance_does(before, after, sender, spender, amount, expires, res),
        res is Ok,
    ensures
        allowance_of(before, spender) is Ok,
        allowance_of(after, spender) == Ok::<AllowanceView, StdError>(
            raised(allowance_of(before, spender)->Ok_0, amount, expires),
        ),
{
}

/// After a decrease, a query gives the allowance that it gave before, reduced
/// and with the expiration that was set; or no allowance, if nothing was left.
pub proof fn decrease_reads_back<T>(
    before: Snapshot,
    after: Snapshot,
    sender: Seq<char>,
    spender: Seq<char>,
    amount: CoinView,
    expires: Option<Expiration>,
    res: Result<Response<T>, ContractError>,
)
    requires
        execute_decrease_allowance_does(before, after, sender, spender, amount, expires, res),
        res is Ok,
    ensures
        allowance_of(before, spender) is Ok,
        reduced(allowance_of(before, spender)->Ok_0.balance, amount) is Some,
        ({
            let held = allowance_of(before, spender)->Ok_0;
            let rest = reduced(held.balance, amount)->Some_0;
            allowance_of(after, spender) == Ok::<AllowanceView, StdError>(
                if exhausted(rest) {
                    no_allowance()
                } else {
                    AllowanceView { balance: rest, expires: expiration_set(held.expires, expires) }
                },
            )
        }),
{
}

/// A decrease undoes an increase by the same coin that set no expiration. The
/// exceptions are an allowance with nothing left, which the decrease removes,
/// and one that held the coin with no amount, which the coin leaves.
pub proof fn decrease_undoes_increase<T>(
    before: Snapshot,
    between: Snapshot,
    after: Snapshot,
    sender: Seq<char>,
    spender: Seq<char>,
    amount: CoinView,
    first: Result<Response<T>, ContractError>,
    second: Result<Response<T>, ContractError>,
)
    requires
        increase_fits(before, sender, spender, amount),
        execute_increase_allowance_does(before, between, sender, spender, amount, None, first),
        first is Ok,
        execute_decrease_allowance_does(between, after, sender, spender, amount, None, second),
        before.allowance(before.addresses[spender]->Ok_0) matches Ok(Some(held)) ==> !exhausted(
            held.balance,
        ) && (holds(held.balance, amount.denom) ==> amount_of(held.balance, amount.denom) > 0),
    ensures
        second is Ok,
        forall|a: Seq<char>| #[trigger] after.allowance(a) == before.allowance(a),
        forall|a: Seq<char>| #[trigger] after.permissions(a) == before.permissions(a),
        after.admin_list() == before.admin_list(),
{
    let addr = before.addresses[spender]->Ok_0;
    lemma_allowance_frame(before, between, addr, between.storage[allowance_key(addr)]);
    lemma_allowance_frame(between, after, addr, after.storage[allowance_key(addr)]);
    let held = allowance_or_none(before.allowance(addr)->Ok_0);
    reducing_undoes_adding(held.balance, amount);
    assert forall|a: Seq<char>| #[trigger] after.allowance(a) == before.allowance(a) by {
        assert(between.allowance(a) == before.allowance(a) || a == addr);
    }
    assert forall|a: Seq<char>| #[trigger] after.permissions(a) == before.permissions(a) by {
        assert(between.permissions(a) == before.permissions(a));
    }
}

/// Whether a query about a text is about an account: the text names it to the
/// chain, or is the account itself where that is an admin, and both are admins
/// or neither is.
pub open spec fn asks_about(chain: Snapshot, text: Seq<char>, addr: Seq<char>) -> bool {
    match chain.admin_list() {
        Err(_) => true,
        Ok(list) => {
            &&& list.is_admin(text) == list.is_admin(addr)
            &&& chain.addresses[text] == Ok::<Seq<char>, StdError>(addr) || (text == addr
                && list.is_admin(addr))
        },
    }
}

/// What `can_execute` says of a message holds when the account relays it alone,
/// before anything else changes: a yes is always kept. A no is kept too, but for
/// distribution messages of subkeys, to which the query says no where only the
/// call knows better. The query answers wherever the admins, and the account's allowance and
/// permissions, can be read.
pub proof fn can_execute_is_kept<T>(
    before: Snapshot,
    after: Snapshot,
    sender: Seq<char>,
    addr: Seq<char>,
    msg: CosmosMsg<T>,
    res: Result<Response<T>, ContractError>,
)
    requires
        asks_about(before, sender, addr),
        execute_execute_does(before, after, addr, seq![msg], res),
    ensures
        before.admin_list() is Ok && before.allowance(addr) is Ok && before.permissions(addr) is Ok
            ==> relayable(before, sender, msg) is Ok,
        relayable(before, sender, msg) == Ok::<bool, StdError>(true) ==> res is Ok,
        res is Ok && (msg !is Distribution || before.admin_list()->Ok_0.admins.contains(addr))
            ==> relayable(before, sender, msg) == Ok::<bool, StdError>(true),
{
    assert(seq![msg].drop_last().len() == 0);
    reveal_with_fuel(charge_all, 2);
}

/// How much of a denomination a message sends.
pub open spec fn sent_by<T>(msg: CosmosMsg<T>, denom: Seq<char>) -> nat {
    match msg {
        CosmosMsg::Bank(BankMsg::Send { amount, .. }) => total(coin_views(amount@), denom),
        _ => 0,
    }
}

/// How much of a denomination some messages send.
pub open spec fn sent<T>(msgs: Seq<CosmosMsg<T>>, denom: Seq<char>) -> nat
    decreases msgs.len(),
{
    if msgs.len() == 0 {
        0
    } else {
        sent(msgs.drop_last(), denom) + sent_by(msgs.last(), denom)
    }
}

/// How much of a denomination an account may still send.
pub open spec fn spendable(chain: Snapshot, addr: Seq<char>, denom: Seq<char>) -> nat {
    worth(chain.allowance(addr), denom)
}

/// How much of a denomination an allowance holds, if it is there.
pub open spec fn worth(found: Result<Option<AllowanceView>, StdError>, denom: Seq<char>) -> nat {
    match found {
        Ok(Some(allowance)) => total(allowance.balance, denom),
        _ => 0,
    }
}

/// What messages are charged adds up, as far as they were charged.
proof fn lemma_charge_conserves<T>(
    permissions: Result<Option<Permissions>, StdError>,
    allowance: Result<Option<AllowanceView>, StdError>,
    msgs: Seq<CosmosMsg<T>>,
    denom: Seq<char>,
)
    ensures
        ({
            let tally = charge_all(permissions, allowance, msgs);
            match tally.saved {
                None => tally.error is None ==> sent(msgs, denom) == 0,
                Some(rest) => {
                    &&& allowance is Ok
                    &&& allowance->Ok_0 is Some
                    &&& rest.expires == allowance->Ok_0->Some_0.expires
                    &&& total(rest.balance, denom) <= total(
                        allowance->Ok_0->Some_0.balance,
                        denom,
                    )
                    &&& tally.error is None ==> total(rest.balance, denom) + sent(msgs, denom)
                        == total(allowance->Ok_0->Some_0.balance, denom)
                },
            }
        }),
    decreases msgs.len(),
{
    if msgs.len() > 0 {
        lemma_charge_conserves(permissions, allowance, msgs.drop_last(), denom);
        let before = charge_all(permissions, allowance, msgs.drop_last());
        if before.error is None {
            if let CosmosMsg::Bank(BankMsg::Send { amount, .. }) = msgs.last() {
                if let Ok(Some(held)) = current(allowance, before.saved) {
                    let coins = coin_views(amount@);
                    if spent(held.balance, coins) is Some {
                        spending_conserves(held.balance, coins, denom);
                    }
                }
            }
        }
    }
}

/// A subkey sends no more than its allowance. When its messages are relayed,
/// what they send comes off it, and the expiration stays. When they are refused,
/// the allowance has not grown.
pub proof fn subkeys_spend_their_allowance<T>(
    before: Snapshot,
    after: Snapshot,
    sender: Seq<char>,
    msgs: Seq<CosmosMsg<T>>,
    res: Result<Response<T>, ContractError>,
    denom: Seq<char>,
)
    requires
        execute_execute_does(before, after, sender, msgs, res),
        before.admin_list() is Ok,
        !before.admin_list()->Ok_0.is_admin(sender),
    ensures
        res is Ok ==> spendable(after, sender, denom) + sent(msgs, denom) == spendable(
            before,
            sender,
            denom,
        ),
        spendable(after, sender, denom) <= spendable(before, sender, denom),
        after.allowance(sender) != before.allowance(sender) ==> {
            &&& before.allowance(sender) matches Ok(Some(held))
            &&& after.allowance(sender) matches Ok(Some(rest))
            &&& rest.expires == held.expires
        },
{
    lemma_charge_conserves(before.permissions(sender), before.allowance(sender), msgs, denom);
}

/// Whether permissions, or an allowance, can cover a message at all.
pub open spec fn permitted<T>(
    permissions: Result<Option<Permissions>, StdError>,
    msg: CosmosMsg<T>,
) -> bool {
    match msg {
        CosmosMsg::Bank(BankMsg::Send { .. }) => true,
        CosmosMsg::Staking(m) => permissions matches Ok(Some(p)) && match m {
            StakingMsg::Delegate { .. } => p.delegate,
            StakingMsg::Undelegate { .. } => p.undelegate,
            StakingMsg::Redelegate { .. } => p.redelegate,
        },
        CosmosMsg::Distribution(_) => permissions matches Ok(Some(p)) && p.withdraw,
        _ => false,
    }
}

/// A subkey relays nothing that it is not permitted to: its messages are sends,
/// or staking and distribution messages that its permissions cover.
pub proof fn subkeys_relay_what_is_permitted<T>(
    before: Snapshot,
    after: Snapshot,
    sender: Seq<char>,
    msgs: Seq<CosmosMsg<T>>,
    res: Result<Response<T>, ContractError>,
)
    requires
        execute_execute_does(before, after, sender, msgs, res),
        before.admin_list() is Ok,
        !before.admin_list()->Ok_0.is_admin(sender),
        res is Ok,
    ensures
        forall|i: int|
            0 <= i < msgs.len() ==> permitted(before.permissions(sender), #[trigger] msgs[i]),
{
    lemma_charge_permits(before.permissions(sender), before.allowance(sender), msgs);
}

/// Messages that are charged without an error are permitted.
proof fn lemma_charge_permits<T>(
    permissions: Result<Option<Permissions>, StdError>,
    allowance: Result<Option<AllowanceView>, StdError>,
    msgs: Seq<CosmosMsg<T>>,
)
    requires
        charge_all(permissions, allowance, msgs).error is None,
    ensures
        forall|i: int| 0 <= i < msgs.len() ==> permitted(permissions, #[trigger] msgs[i]),
    decreases msgs.len(),
{
    if msgs.len() > 0 {
        lemma_charge_permits(permissions, allowance, msgs.drop_last());
        assert forall|i: int| 0 <= i < msgs.len() implies permitted(
            permissions,
            #[trigger] msgs[i],
        ) by {
            if i < msgs.len() - 1 {
                assert(msgs.drop_last()[i] == msgs[i]);
            }
        }
    }
}

/// Whether all coins that messages send are worth something.
pub open spec fn sends_are_positive<T>(msgs: Seq<CosmosMsg<T>>) -> bool {
    forall|i: int| 0 <= i < msgs.len() ==> send_is_positive(#[trigger] msgs[i])
}

/// Whether all coins that a message sends are worth something.
pub open spec fn send_is_positive<T>(msg: CosmosMsg<T>) -> bool {
    msg matches CosmosMsg::Bank(BankMsg::Send { amount, .. }) ==> positive(coin_views(amount@))
}

/// Whether an allowance is there.
pub open spec fn given(found: Result<Option<AllowanceView>, StdError>) -> bool {
    found matches Ok(Some(_))
}

/// A subkey's messages, where its permissions cover those that are no sends, are
/// relayed exactly where its allowance covers, for every denomination, all that
/// the others send. The allowance names no denomination twice, and each coin that
/// is sent is worth something. Without sends no allowance is needed.
pub proof fn covered_messages_are_relayed<T>(
    before: Snapshot,
    after: Snapshot,
    sender: Seq<char>,
    msgs: Seq<CosmosMsg<T>>,
    res: Result<Response<T>, ContractError>,
)
    requires
        execute_execute_does(before, after, sender, msgs, res),
        before.admin_list() is Ok,
        !before.admin_list()->Ok_0.is_admin(sender),
        entry_distinct(before.allowance(sender)),
        forall|i: int|
            0 <= i < msgs.len() ==> {
                &&& permitted(before.permissions(sender), #[trigger] msgs[i])
                &&& msgs[i] is Bank ==> given(before.allowance(sender))
            },
        sends_are_positive(msgs),
    ensures
        res is Ok <==> forall|d: Seq<char>| #[trigger]
            sent(msgs, d) <= spendable(before, sender, d),
{
    if res is Ok {
        assert forall|d: Seq<char>| #[trigger] sent(msgs, d) <= spendable(before, sender, d) by {
            subkeys_spend_their_allowance(before, after, sender, msgs, res, d);
        }
    }
    if forall|d: Seq<char>| #[trigger] sent(msgs, d) <= spendable(before, sender, d) {
        assert forall|d: Seq<char>| #[trigger] sent(msgs, d) <= worth(
            before.allowance(sender),
            d,
        ) by {
            assert(sent(msgs, d) <= spendable(before, sender, d));
        }
        lemma_charge_covers(before.permissions(sender), before.allowance(sender), msgs);
    }
}

/// Messages that are permitted and covered are charged without an error.
proof fn lemma_charge_covers<T>(
    permissions: Result<Option<Permissions>, StdError>,
    allowance: Result<Option<AllowanceView>, StdError>,
    msgs: Seq<CosmosMsg<T>>,
)
    requires
        entry_distinct(allowance),
        forall|i: int|
            0 <= i < msgs.len() ==> {
                &&& permitted(permissions, #[trigger] msgs[i])
                &&& msgs[i] is Bank ==> given(allowance)
            },
        sends_are_positive(msgs),
        forall|d: Seq<char>| #[trigger] sent(msgs, d) <= worth(allowance, d),
    ensures
        charge_all(permissions, allowance, msgs).error is None,
    decreases msgs.len(),
{
    if msgs.len() > 0 {
        let few = msgs.drop_last();
        assert forall|i: int| 0 <= i < few.len() implies {
            &&& permitted(permissions, #[trigger] few[i])
            &&& few[i] is Bank ==> given(allowance)
            &&& send_is_positive(few[i])
        } by {
            assert(few[i] == msgs[i]);
        }
        assert forall|d: Seq<char>| #[trigger] sent(few, d) <= worth(allowance, d) by {
            assert(sent(msgs, d) <= worth(allowance, d));
        }
        lemma_charge_covers(permissions, allowance, few);
        lemma_charge_keeps_distinct(permissions, allowance, few);
        assert(permitted(permissions, msgs[msgs.len() - 1]));
        assert(send_is_positive(msgs[msgs.len() - 1]));
        if let CosmosMsg::Bank(BankMsg::Send { amount, .. }) = msgs.last() {
            let tally = charge_all(permissions, allowance, few);
            let held = current(allowance, tally.saved)->Ok_0->Some_0;
            let coins = coin_views(amount@);
            assert forall|d: Seq<char>| #[trigger] total(coins, d) <= total(held.balance, d) by {
                lemma_charge_conserves(permissions, allowance, few, d);
                assert(sent(msgs, d) <= worth(allowance, d));
            }
            covered_coins_can_be_spent(held.balance, coins);
        }
    }
}

/// Whether an allowance, if it is there, names no denomination twice.
pub open spec fn entry_distinct(found: Result<Option<AllowanceView>, StdError>) -> bool {
    found matches Ok(Some(allowance)) ==> distinct(allowance.balance)
}

/// An ordered allowance names no denomination twice.
pub proof fn ordered_entry_is_distinct(found: Result<Option<AllowanceView>, StdError>)
    requires
        entry_ordered(found),
    ensures
        entry_distinct(found),
{
    if let Ok(Some(allowance)) = found {
        ordered_is_distinct(allowance.balance);
    }
}

/// Charging repeats no denomination.
proof fn lemma_charge_keeps_distinct<T>(
    permissions: Result<Option<Permissions>, StdError>,
    allowance: Result<Option<AllowanceView>, StdError>,
    msgs: Seq<CosmosMsg<T>>,
)
    requires
        entry_distinct(allowance),
    ensures
        charge_all(permissions, allowance, msgs).saved matches Some(rest) ==> distinct(
            rest.balance,
        ),
    decreases msgs.len(),
{
    if msgs.len() > 0 {
        lemma_charge_keeps_distinct(permissions, allowance, msgs.drop_last());
        let before = charge_all(permissions, allowance, msgs.drop_last());
        if let CosmosMsg::Bank(BankMsg::Send { amount, .. }) = msgs.last() {
            if let Ok(Some(held)) = current(allowance, before.saved) {
                let coins = coin_views(amount@);
                if spent(held.balance, coins) is Some {
                    spending_keeps_distinct(held.balance, coins);
                }
            }
        }
    }
}

/// Charging messages in two parts is charging them together, as far as the first
/// part is not refused.
proof fn lemma_charge_in_turn<T>(
    permissions: Result<Option<Permissions>, StdError>,
    allowance: Result<Option<AllowanceView>, StdError>,
    a: Seq<CosmosMsg<T>>,
    b: Seq<CosmosMsg<T>>,
)
    requires
        charge_all(permissions, allowance, a).error is None,
    ensures
        ({
            let first = charge_all(permissions, allowance, a);
            let second = charge_all(permissions, current(allowance, first.saved), b);
            let whole = charge_all(permissions, allowance, a + b);
            &&& whole.error == second.error
            &&& whole.saved == if second.saved is Some {
                second.saved
            } else {
                first.saved
            }
        }),
    decreases b.len(),
{
    if b.len() > 0 {
        lemma_charge_in_turn(permissions, allowance, a, b.drop_last());
        assert((a + b).drop_last() =~= a + b.drop_last());
    } else {
        assert(a + b =~= a);
    }
}

/// Relaying a list of messages does what relaying its first part and then the
/// rest does, with the same first error.
pub proof fn relaying_in_turn<T>(
    before: Snapshot,
    between: Snapshot,
    after: Snapshot,
    whole: Snapshot,
    sender: Seq<char>,
    a: Seq<CosmosMsg<T>>,
    b: Seq<CosmosMsg<T>>,
    first: Result<Response<T>, ContractError>,
    second: Result<Response<T>, ContractError>,
    both: Result<Response<T>, ContractError>,
)
    requires
        execute_execute_does(before, between, sender, a, first),
        first is Ok ==> execute_execute_does(between, after, sender, b, second),
        execute_execute_does(before, whole, sender, a + b, both),
    ensures
        first is Err ==> {
            &&& whole == between
            &&& both is Err
            &&& both->Err_0 == first->Err_0
        },
        first is Ok ==> {
            &&& whole == after
            &&& both is Ok <==> second is Ok
            &&& both is Err ==> both->Err_0 == second->Err_0
            &&& both is Ok ==> both->Ok_0.messages@ == first->Ok_0.messages@
                + second->Ok_0.messages@
        },
{
    let (permissions, allowance) = (before.permissions(sender), before.allowance(sender));
    assert(relayed(a + b) =~= relayed(a) + relayed(b));
    if before.admin_list() is Ok && !before.admin_list()->Ok_0.is_admin(sender) {
        lemma_allowance_frame(before, between, sender, between.storage[allowance_key(sender)]);
        assert((a + b).take(a.len() as int) =~= a);
        let tally = charge_all(permissions, allowance, a);
        if tally.error is None {
            assert(between.permissions(sender) == permissions);
            lemma_charge_in_turn(permissions, allowance, a, b);
            assert(whole.storage =~= after.storage);
        } else {
            lemma_charge_stops(permissions, allowance, a + b, a.len() as int);
            assert(whole.storage =~= between.storage);
        }
    }
}

/// Whether every allowance that is kept has its denominations in ascending
/// order, each once.
pub open spec fn allowances_ordered(chain: Snapshot) -> bool {
    forall|a: Seq<char>| entry_ordered(#[trigger] chain.allowance(a))
}

/// Whether an allowance, if it is there, has its denominations in ascending
/// order.
pub open spec fn entry_ordered(found: Result<Option<AllowanceView>, StdError>) -> bool {
    found matches Ok(Some(allowance)) ==> ordered(allowance.balance)
}

/// Charging keeps an allowance ordered.
proof fn lemma_charge_keeps_order<T>(
    permissions: Result<Option<Permissions>, StdError>,
    allowance: Result<Option<AllowanceView>, StdError>,
    msgs: Seq<CosmosMsg<T>>,
)
    requires
        entry_ordered(allowance),
    ensures
        charge_all(permissions, allowance, msgs).saved matches Some(rest) ==> ordered(rest.balance),
    decreases msgs.len(),
{
    if msgs.len() > 0 {
        lemma_charge_keeps_order(permissions, allowance, msgs.drop_last());
        let before = charge_all(permissions, allowance, msgs.drop_last());
        if let CosmosMsg::Bank(BankMsg::Send { amount, .. }) = msgs.last() {
            if let Ok(Some(held)) = current(allowance, before.saved) {
                let coins = coin_views(amount@);
                if spent(held.balance, coins) is Some {
                    spending_keeps_order(held.balance, coins);
                }
            }
        }
    }
}

/// Every call keeps the allowances ordered.
pub proof fn calls_keep_allowances_ordered<T>(
    before: Snapshot,
    after: Snapshot,
    sender: Seq<char>,
    msg: ExecuteMsg<T>,
    res: Result<Response<T>, ContractError>,
)
    requires
        execute_does(before, after, sender, msg, res),
        allowances_ordered(before),
    ensures
        allowances_ordered(after),
{
    calls_are_independent(before, after, sender, msg, res);
    assert forall|a: Seq<char>| entry_ordered(#[trigger] after.allowance(a)) by {
        assert(entry_ordered(before.allowance(a)));
        match msg {
            ExecuteMsg::Execute { msgs } => {
                lemma_charge_keeps_order(before.permissions(a), before.allowance(a), msgs@);
            },
            ExecuteMsg::IncreaseAllowance { spender, amount, .. } => {
                if let Ok(found) = before.allowance(a) {
                    let held = allowance_or_none(found);
                    adding_keeps_order(held.balance, amount@);
                }
            },
            ExecuteMsg::DecreaseAllowance { spender, amount, .. } => {
                if let Ok(Some(held)) = before.allowance(a) {
                    if reduced(held.balance, amount@) is Some {
                        reducing_keeps_order(held.balance, amount@);
                    }
                }
            },
            _ => {},
        }
    }
}

/// Setting up touches no allowances and no permissions, so where there are none
/// yet, there are none after it.
pub proof fn instantiation_leaves_accounts(
    before: Snapshot,
    after: Snapshot,
    admins: Seq<Seq<char>>,
    mutable: bool,
    res: Result<Response<Empty>, StdError>,
)
    requires
        instantiate_does(before, after, admins, mutable, res),
    ensures
        forall|a: Seq<char>| #[trigger] after.allowance(a) == before.allowance(a),
        forall|a: Seq<char>| #[trigger] after.permissions(a) == before.permissions(a),
{
    assert forall|a: Seq<char>| #[trigger] after.allowance(a) == before.allowance(a) by {
        entries_apart(a, a);
    }
    assert forall|a: Seq<char>| #[trigger] after.permissions(a) == before.permissions(a) by {
        entries_apart(a, a);
    }
}

/// An increase raises what the account may send by the coin, and by nothing
/// else.
pub proof fn increase_raises_spendable<T>(
    before: Snapshot,
    after: Snapshot,
    sender: Seq<char>,
    spender: Seq<char>,
    amount: CoinView,
    expires: Option<Expiration>,
    res: Result<Response<T>, ContractError>,
    denom: Seq<char>,
)
    requires
        increase_fits(before, sender, spender, amount),
        execute_increase_allowance_does(before, after, sender, spender, amount, expires, res),
        res is Ok,
    ensures
        ({
            let addr = before.addresses[spender]->Ok_0;
            spendable(after, addr, denom) == spendable(before, addr, denom) + share(amount, denom)
        }),
{
    let addr = before.addresses[spender]->Ok_0;
    let held = allowance_or_none(before.allowance(addr)->Ok_0);
    adding_adds(held.balance, amount, denom);
}

/// It does not matter in which order two increases that set no expiration come,
/// whether they are for one account or for two.
pub proof fn increases_commute<T>(
    before: Snapshot,
    between: Snapshot,
    after: Snapshot,
    other_between: Snapshot,
    other_after: Snapshot,
    sender: Seq<char>,
    spender: Seq<char>,
    amount: CoinView,
    other_sender: Seq<char>,
    other_spender: Seq<char>,
    other_amount: CoinView,
    res: Result<Response<T>, ContractError>,
    other_res: Result<Response<T>, ContractError>,
    swapped_other_res: Result<Response<T>, ContractError>,
    swapped_res: Result<Response<T>, ContractError>,
)
    requires
        increase_fits(before, sender, spender, amount),
        execute_increase_allowance_does(before, between, sender, spender, amount, None, res),
        res is Ok,
        increase_fits(between, other_sender, other_spender, other_amount),
        execute_increase_allowance_does(
            between,
            after,
            other_sender,
            other_spender,
            other_amount,
            None,
            other_res,
        ),
        other_res is Ok,
        execute_increase_allowance_does(
            before,
            other_between,
            other_sender,
            other_spender,
            other_amount,
            None,
            swapped_other_res,
        ),
        execute_increase_allowance_does(
            other_between,
            other_after,
            sender,
            spender,
            amount,
            None,
            swapped_res,
        ),
    ensures
        swapped_other_res is Ok,
        swapped_res is Ok,
        other_after == after,
{
    let (x, y) = (before.addresses[spender]->Ok_0, before.addresses[other_spender]->Ok_0);
    lemma_allowance_frame(before, between, x, between.storage[allowance_key(x)]);
    lemma_allowance_frame(
        before,
        other_between,
        y,
        other_between.storage[allowance_key(y)],
    );
    if x == y {
        let held = allowance_or_none(before.allowance(x)->Ok_0);
        adding_commutes(held.balance, amount, other_amount);
    } else {
        accounts_apart(x, y);
        assert(between.allowance(y) == before.allowance(y));
        assert(other_between.allowance(x) == before.allowance(x));
    }
    assert(other_after.storage =~= after.storage);
}

/// Two increases of one denomination that set no expiration do what one increase
/// by the sum does.
pub proof fn increases_add_up<T>(
    before: Snapshot,
    between: Snapshot,
    after: Snapshot,
    at_once: Snapshot,
    sender: Seq<char>,
    spender: Seq<char>,
    denom: Seq<char>,
    x: u128,
    y: u128,
    first: Result<Response<T>, ContractError>,
    second: Result<Response<T>, ContractError>,
    both: Result<Response<T>, ContractError>,
)
    requires
        x + y <= u128::MAX,
        increase_fits(before, sender, spender, CoinView { denom, amount: (x + y) as u128 }),
        execute_increase_allowance_does(
            before,
            between,
            sender,
            spender,
            CoinView { denom, amount: x },
            None,
            first,
        ),
        execute_increase_allowance_does(
            between,
            after,
            sender,
            spender,
            CoinView { denom, amount: y },
            None,
            second,
        ),
        execute_increase_allowance_does(
            before,
            at_once,
            sender,
            spender,
            CoinView { denom, amount: (x + y) as u128 },
            None,
            both,
        ),
    ensures
        after == at_once,
        first is Ok <==> both is Ok,
        second is Ok <==> both is Ok,
{
    if let Ok(addr) = settable(before, sender, spender) {
        lemma_allowance_frame(before, between, addr, between.storage[allowance_key(addr)]);
        if let Ok(found) = before.allowance(addr) {
            adding_twice_adds_the_sum(allowance_or_none(found).balance, denom, x, y);
            assert(after.storage =~= at_once.storage);
        }
    }
}

/// A decrease lowers what the account may send by the coin, but not below
/// nothing, and lowers nothing else. The account's allowance names no denomination
/// twice.
pub proof fn decrease_lowers_spendable<T>(
    before: Snapshot,
    after: Snapshot,
    sender: Seq<char>,
    spender: Seq<char>,
    amount: CoinView,
    expires: Option<Expiration>,
    res: Result<Response<T>, ContractError>,
    denom: Seq<char>,
)
    requires
        execute_decrease_allowance_does(before, after, sender, spender, amount, expires, res),
        entry_distinct(before.allowance(before.addresses[spender]->Ok_0)),
        res is Ok,
    ensures
        ({
            let addr = before.addresses[spender]->Ok_0;
            let (old, off) = (spendable(before, addr, denom), share(amount, denom));
            spendable(after, addr, denom) == if old > off {
                (old - off) as nat
            } else {
                0
            }
        }),
{
    let addr = before.addresses[spender]->Ok_0;
    let held = before.allowance(addr)->Ok_0->Some_0;
    distinct_amount(held.balance, denom);
    reducing_saturates(held.balance, amount, denom);
    if exhausted(reduced(held.balance, amount)->Some_0) {
        exhausted_total(reduced(held.balance, amount)->Some_0, denom);
    }
}

/// Where pages start.
pub open spec fn page_starts(starts: Seq<Option<String>>) -> Seq<Option<Seq<u8>>> {
    starts.map_values(|s: Option<String>| page_start(s))
}

/// How many entries pages hold at most.
pub open spec fn page_limits(limits: Seq<Option<u32>>) -> Seq<nat> {
    limits.map_values(|l: Option<u32>| page_limit(l))
}

/// The account that an entry of an allowance names.
pub open spec fn allowance_account() -> spec_fn(AllowanceInfoView) -> Seq<char> {
    |info: AllowanceInfoView| info.spender
}

/// Whether a list of accounts with their allowances is right: the accounts ascend, they
/// come after the start, and each stands there with the allowance that it has.
pub open spec fn lists_allowances(
    chain: Snapshot,
    start: Option<Seq<u8>>,
    list: Seq<AllowanceInfoView>,
) -> bool {
    &&& accounts_listed(
        chain.storage,
        allowance_namespace(),
        start,
        list.map_values(allowance_account()),
    )
    &&& forall|i: int|
        0 <= i < list.len() ==> chain.allowance((#[trigger] list[i]).spender) == holding(
                AllowanceView { balance: list[i].balance, expires: list[i].expires },
            )
}

/// Whether a list leaves out no account that has an allowance and comes after the start.
pub open spec fn lists_all_allowances(
    chain: Snapshot,
    start: Option<Seq<u8>>,
    list: Seq<AllowanceInfoView>,
) -> bool {
    accounts_complete(
        chain.storage,
        allowance_namespace(),
        start,
        list.map_values(allowance_account()),
    )
}

/// What is read of the allowances is right, and complete if there was room for more.
proof fn lemma_lists_allowances(
    chain: Snapshot,
    start: Option<Seq<u8>>,
    limit: nat,
    page: Seq<AllowanceInfoView>,
)
    requires
        reads(
            chain.storage,
            allowance_namespace(),
            start,
            limit,
            allowance_info(chain.storage),
            Ok(page),
        ),
    ensures
        page.len() <= limit,
        lists_allowances(chain, start, page),
        page.len() < limit ==> lists_all_allowances(chain, start, page),
{
    let decode = allowance_info(chain.storage);
    let accounts = page.map_values(allowance_account());
    reading_lists(
        chain.storage,
        allowance_namespace(),
        start,
        limit,
        decode,
        allowance_account(),
        page,
    );
    assert forall|i: int| 0 <= i < page.len() implies chain.allowance(
        (#[trigger] page[i]).spender,
    ) == holding(
                AllowanceView { balance: page[i].balance, expires: page[i].expires },
            ) by {
        assert(accounts[i] == page[i].spender);
        assert(listed(chain.storage, allowance_namespace(), start, encode_utf8(accounts[i])));
        assert(decode(encode_utf8(page[i].spender)) == Ok::<AllowanceInfoView, StdError>(page[i]));
    }
}

/// A page of allowances holds at most `MAX_LIMIT` accounts. They ascend, they come
/// after the one that the page starts after, and each stands there with
/// the allowance that it has. A page that is not full leaves out no account above its start.
pub proof fn allowance_pages_are_faithful(
    chain: Snapshot,
    start_after: Option<String>,
    limit: Option<u32>,
    page: Seq<AllowanceInfoView>,
)
    requires
        allowances_read(chain.storage, start_after, limit, Ok(page)),
    ensures
        page.len() <= page_limit(limit) <= MAX_LIMIT,
        lists_allowances(chain, page_start(start_after), page),
        page.len() < page_limit(limit) ==> lists_all_allowances(
            chain,
            page_start(start_after),
            page,
        ),
{
    lemma_lists_allowances(chain, page_start(start_after), page_limit(limit), page);
}

/// A page of allowances that is not empty, and the page that starts after its last
/// account, make up one larger page.
pub proof fn allowance_pages_join(
    storage: Storage,
    start_after: Option<String>,
    limit: Option<u32>,
    first: Seq<AllowanceInfoView>,
    last: String,
    more: Option<u32>,
    second: Seq<AllowanceInfoView>,
)
    requires
        allowances_read(storage, start_after, limit, Ok(first)),
        first.len() > 0,
        last@ == first.last().spender,
        allowances_read(storage, Some(last), more, Ok(second)),
    ensures
        reads(
            storage,
            allowance_namespace(),
            page_start(start_after),
            first.len() + page_limit(more),
            allowance_info(storage),
            Ok(first + second),
        ),
{
    reading_on(
        storage,
        allowance_namespace(),
        page_start(start_after),
        page_limit(limit),
        page_limit(more),
        allowance_info(storage),
        allowance_account(),
        first,
        second,
    );
}

/// Who reads pages of allowances one after the other, each from the last account of
/// the one before, until one with room for more is empty, sees every account
/// after the start once, in order, whatever the limits.
pub proof fn walking_lists_all_allowances(
    chain: Snapshot,
    starts: Seq<Option<String>>,
    limits: Seq<Option<u32>>,
    pages: Seq<Seq<AllowanceInfoView>>,
)
    requires
        walked(
            chain.storage,
            allowance_namespace(),
            allowance_info(chain.storage),
            allowance_account(),
            page_starts(starts),
            page_limits(limits),
            pages,
        ),
    ensures
        lists_allowances(chain, page_start(starts[0]), pages.flatten()),
        lists_all_allowances(chain, page_start(starts[0]), pages.flatten()),
        pages.flatten().map_values(allowance_account()).no_duplicates(),
{
    let all = pages.flatten();
    walking_reads_all(
        chain.storage,
        allowance_namespace(),
        allowance_info(chain.storage),
        allowance_account(),
        page_starts(starts),
        page_limits(limits),
        pages,
    );
    lemma_lists_allowances(chain, page_start(starts[0]), all.len() + 1, all);
    listed_accounts_differ(
        chain.storage,
        allowance_namespace(),
        page_start(starts[0]),
        all.map_values(allowance_account()),
    );
}

/// The account that an entry of permissions names.
pub open spec fn permissions_account() -> spec_fn(PermissionsInfoView) -> Seq<char> {
    |info: PermissionsInfoView| info.spender
}

/// Whether a list of accounts with their permissions is right: the accounts ascend, they
/// come after the start, and each stands there with the permissions that it has.
pub open spec fn lists_permissions(
    chain: Snapshot,
    start: Option<Seq<u8>>,
    list: Seq<PermissionsInfoView>,
) -> bool {
    &&& accounts_listed(
        chain.storage,
        permissions_namespace(),
        start,
        list.map_values(permissions_account()),
    )
    &&& forall|i: int|
        0 <= i < list.len() ==> chain.permissions((#[trigger] list[i]).spender) == holding(
            list[i].permissions,
        )
}

/// Whether a list leaves out no account that has permissions and comes after the start.
pub open spec fn lists_all_permissions(
    chain: Snapshot,
    start: Option<Seq<u8>>,
    list: Seq<PermissionsInfoView>,
) -> bool {
    accounts_complete(
        chain.storage,
        permissions_namespace(),
        start,
        list.map_values(permissions_account()),
    )
}

/// What is read of the permissions is right, and complete if there was room for more.
proof fn lemma_lists_permissions(
    chain: Snapshot,
    start: Option<Seq<u8>>,
    limit: nat,
    page: Seq<PermissionsInfoView>,
)
    requires
        reads(
            chain.storage,
            permissions_namespace(),
            start,
            limit,
            permissions_info(chain.storage),
            Ok(page),
        ),
    ensures
        page.len() <= limit,
        lists_permissions(chain, start, page),
        page.len() < limit ==> lists_all_permissions(chain, start, page),
{
    let decode = permissions_info(chain.storage);
    let accounts = page.map_values(permissions_account());
    reading_lists(
        chain.storage,
        permissions_namespace(),
        start,
        limit,
        decode,
        permissions_account(),
        page,
    );
    assert forall|i: int| 0 <= i < page.len() implies chain.permissions(
        (#[trigger] page[i]).spender,
    ) == holding(page[i].permissions) by {
        assert(accounts[i] == page[i].spender);
        assert(listed(chain.storage, permissions_namespace(), start, encode_utf8(accounts[i])));
        assert(decode(encode_utf8(page[i].spender)) == Ok::<PermissionsInfoView, StdError>(page[i]));
    }
}

/// A page of permissions holds at most `MAX_LIMIT` accounts. They ascend, they come
/// after the one that the page starts after, and each stands there with
/// the permissions that it has. A page that is not full leaves out no account above its start.
pub proof fn permission_pages_are_faithful(
    chain: Snapshot,
    start_after: Option<String>,
    limit: Option<u32>,
    page: Seq<PermissionsInfoView>,
)
    requires
        permissions_read(chain.storage, start_after, limit, Ok(page)),
    ensures
        page.len() <= page_limit(limit) <= MAX_LIMIT,
        lists_permissions(chain, page_start(start_after), page),
        page.len() < page_limit(limit) ==> lists_all_permissions(
            chain,
            page_start(start_after),
            page,
        ),
{
    lemma_lists_permissions(chain, page_start(start_after), page_limit(limit), page);
}

/// A page of permissions that is not empty, and the page that starts after its last
/// account, make up one larger page.
pub proof fn permission_pages_join(
    storage: Storage,
    start_after: Option<String>,
    limit: Option<u32>,
    first: Seq<PermissionsInfoView>,
    last: String,
    more: Option<u32>,
    second: Seq<PermissionsInfoView>,
)
    requires
        permissions_read(storage, start_after, limit, Ok(first)),
        first.len() > 0,
        last@ == first.last().spender,
        permissions_read(storage, Some(last), more, Ok(second)),
    ensures
        reads(
            storage,
            permissions_namespace(),
            page_start(start_after),
            first.len() + page_limit(more),
            permissions_info(storage),
            Ok(first + second),
        ),
{
    reading_on(
        storage,
        permissions_namespace(),
        page_start(start_after),
        page_limit(limit),
        page_limit(more),
        permissions_info(storage),
        permissions_account(),
        first,
        second,
    );
}

/// Who reads pages of permissions one after the other, each from the last account of
/// the one before, until one with room for more is empty, sees every account
/// after the start once, in order, whatever the limits.
pub proof fn walking_lists_all_permissions(
    chain: Snapshot,
    starts: Seq<Option<String>>,
    limits: Seq<Option<u32>>,
    pages: Seq<Seq<PermissionsInfoView>>,
)
    requires
        walked(
            chain.storage,
            permissions_namespace(),
            permissions_info(chain.storage),
            permissions_account(),
            page_starts(starts),
            page_limits(limits),
            pages,
        ),
    ensures
        lists_permissions(chain, page_start(starts[0]), pages.flatten()),
        lists_all_permissions(chain, page_start(starts[0]), pages.flatten()),
        pages.flatten().map_values(permissions_account()).no_duplicates(),
{
    let all = pages.flatten();
    walking_reads_all(
        chain.storage,
        permissions_namespace(),
        permissions_info(chain.storage),
        permissions_account(),
        page_starts(starts),
        page_limits(limits),
        pages,
    );
    lemma_lists_permissions(chain, page_start(starts[0]), all.len() + 1, all);
    listed_accounts_differ(
        chain.storage,
        permissions_namespace(),
        page_start(starts[0]),
        all.map_values(permissions_account()),
    );
}

} // verus!
