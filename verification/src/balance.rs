//! Balances of native coins. The arithmetic is that of `cw0::NativeBalance`.

use cosmwasm_std::StdError;
use vstd::prelude::*;

use crate::text::{text_less, text_less_total, text_less_transitive};
use crate::types::{coin_views, Coin, CoinView};

verus! {

/// The error type of `cosmwasm_std`. It is carried through as it comes.
#[verifier::external_type_specification]
#[verifier::external_body]
pub struct ExStdError(cosmwasm_std::StdError);

/// Coins that an account may spend, in the order in which they are kept.
#[derive(Clone, Debug, PartialEq)]
pub struct NativeBalance(pub Vec<Coin>);

impl View for NativeBalance {
    type V = Seq<CoinView>;

    open spec fn view(&self) -> Seq<CoinView> {
        coin_views(self.0@)
    }
}

/// Where the first coin of a denomination stands, or the length if there is none.
pub open spec fn position(balance: Seq<CoinView>, denom: Seq<char>) -> nat
    decreases balance.len(),
{
    if balance.len() == 0 || balance[0].denom == denom {
        0
    } else {
        1 + position(balance.drop_first(), denom)
    }
}

/// Where a new denomination goes: before the first one that is not less.
pub open spec fn insert_position(balance: Seq<CoinView>, denom: Seq<char>) -> nat
    decreases balance.len(),
{
    if balance.len() == 0 || !text_less(balance[0].denom, denom) {
        0
    } else {
        1 + insert_position(balance.drop_first(), denom)
    }
}

/// Whether a balance holds a coin of a denomination.
pub open spec fn holds(balance: Seq<CoinView>, denom: Seq<char>) -> bool {
    position(balance, denom) < balance.len()
}

/// The amount of the first coin of a denomination, 0 if there is none.
pub open spec fn amount_of(balance: Seq<CoinView>, denom: Seq<char>) -> nat {
    if holds(balance, denom) {
        balance[position(balance, denom) as int].amount as nat
    } else {
        0
    }
}

/// The balance after the first coin of a denomination got another amount.
pub open spec fn with_amount(balance: Seq<CoinView>, denom: Seq<char>, amount: nat) -> Seq<CoinView> {
    balance.update(position(balance, denom) as int, CoinView { denom, amount: amount as u128 })
}

/// The balance after the first coin of a denomination left.
pub open spec fn without(balance: Seq<CoinView>, denom: Seq<char>) -> Seq<CoinView> {
    balance.remove(position(balance, denom) as int)
}

/// Whether a coin can be added: the sum is an amount.
pub open spec fn addable(balance: Seq<CoinView>, coin: CoinView) -> bool {
    amount_of(balance, coin.denom) + coin.amount <= u128::MAX
}

/// A balance with a coin added to it.
pub open spec fn added(balance: Seq<CoinView>, coin: CoinView) -> Seq<CoinView> {
    if holds(balance, coin.denom) {
        with_amount(balance, coin.denom, amount_of(balance, coin.denom) + coin.amount as nat)
    } else {
        balance.insert(insert_position(balance, coin.denom) as int, coin)
    }
}

/// A balance with one coin taken out, if it holds enough of it. A coin that is
/// used up leaves.
pub open spec fn spent_one(balance: Seq<CoinView>, coin: CoinView) -> Option<Seq<CoinView>> {
    if !holds(balance, coin.denom) || amount_of(balance, coin.denom) < coin.amount {
        None
    } else if amount_of(balance, coin.denom) == coin.amount {
        Some(without(balance, coin.denom))
    } else {
        Some(
            with_amount(
                balance,
                coin.denom,
                (amount_of(balance, coin.denom) - coin.amount) as nat,
            ),
        )
    }
}

/// A balance with coins taken out one after the other, if it holds enough of
/// each when its turn comes.
pub open spec fn spent(balance: Seq<CoinView>, coins: Seq<CoinView>) -> Option<Seq<CoinView>>
    decreases coins.len(),
{
    if coins.len() == 0 {
        Some(balance)
    } else {
        match spent(balance, coins.drop_last()) {
            Some(rest) => spent_one(rest, coins.last()),
            None => None,
        }
    }
}

/// A balance with up to an amount of a coin taken out, if it holds that coin at
/// all. A coin that is used up leaves.
pub open spec fn reduced(balance: Seq<CoinView>, coin: CoinView) -> Option<Seq<CoinView>> {
    if !holds(balance, coin.denom) {
        None
    } else if amount_of(balance, coin.denom) <= coin.amount {
        Some(without(balance, coin.denom))
    } else {
        Some(
            with_amount(
                balance,
                coin.denom,
                (amount_of(balance, coin.denom) - coin.amount) as nat,
            ),
        )
    }
}

/// Whether there is nothing to spend.
pub open spec fn exhausted(balance: Seq<CoinView>) -> bool {
    forall|i: int| 0 <= i < balance.len() ==> (#[trigger] balance[i]).amount == 0
}

/// The error that `cosmwasm_std::Uint128::checked_sub` gives for a subtraction
/// that does not work out: an overflow of these two operands. `cw0` gives the
/// same one, with nothing held, for a coin that is not held at all.
pub uninterp spec fn sub_overflow(held: nat, asked: u128) -> StdError;

/// The error where coins cannot be taken out: that of the first coin of which
/// the balance does not hold enough when its turn comes.
pub open spec fn overspent(balance: Seq<CoinView>, coins: Seq<CoinView>) -> StdError
    decreases coins.len(),
{
    if coins.len() == 0 {
        sub_overflow(0, 0)
    } else {
        match spent(balance, coins.drop_last()) {
            None => overspent(balance, coins.drop_last()),
            Some(rest) => sub_overflow(
                amount_of(rest, coins.last().denom),
                coins.last().amount,
            ),
        }
    }
}

impl NativeBalance {
    /// Calls `<cw0::NativeBalance as Sub<Vec<Coin>>>::sub`: takes the coins out
    /// in turn. It fails on the first one of which the balance does not hold
    /// enough, with the error of that subtraction.
    #[verifier::external_body]
    pub(crate) fn sub(self, amount: &Vec<Coin>) -> (res: Result<NativeBalance, StdError>)
        ensures
            match res {
                Ok(rest) => spent(self@, coin_views(amount@)) == Some(rest@),
                Err(e) => spent(self@, coin_views(amount@)) is None && e == overspent(
                    self@,
                    coin_views(amount@),
                ),
            },
    {
        let held: Vec<cosmwasm_std::Coin> = self.0.into_iter().map(
            |c| cosmwasm_std::Coin { denom: c.denom, amount: c.amount.into() },
        ).collect();
        let taken: Vec<cosmwasm_std::Coin> = amount.iter().map(
            |c| cosmwasm_std::Coin { denom: c.denom.clone(), amount: c.amount.into() },
        ).collect();
        let rest = (cw0::NativeBalance(held) - taken)?;
        Ok(NativeBalance(rest.0.into_iter().map(
            |c| Coin { denom: c.denom, amount: c.amount.u128() },
        ).collect()))
    }

    /// Calls `cw0::NativeBalance::sub_saturating`: takes up to the amount out.
    /// It fails where the coin is not held, with the error of taking the amount
    /// from nothing.
    #[verifier::external_body]
    pub(crate) fn sub_saturating(self, coin: &Coin) -> (res: Result<NativeBalance, StdError>)
        ensures
            match res {
                Ok(rest) => reduced(self@, coin@) == Some(rest@),
                Err(e) => reduced(self@, coin@) is None && e == sub_overflow(0, coin@.amount),
            },
    {
        let held: Vec<cosmwasm_std::Coin> = self.0.into_iter().map(
            |c| cosmwasm_std::Coin { denom: c.denom, amount: c.amount.into() },
        ).collect();
        let rest = cw0::NativeBalance(held).sub_saturating(
            cosmwasm_std::Coin { denom: coin.denom.clone(), amount: coin.amount.into() },
        )?;
        Ok(NativeBalance(rest.0.into_iter().map(
            |c| Coin { denom: c.denom, amount: c.amount.u128() },
        ).collect()))
    }

    /// Calls `<cw0::NativeBalance as AddAssign<Coin>>::add_assign`: adds to the
    /// first coin of the same denomination, or puts the coin before the first
    /// denomination that is not less. The call panics where the sum overflows.
    #[verifier::external_body]
    pub(crate) fn add_coin(self, coin: &Coin) -> (res: NativeBalance)
        requires
            addable(self@, coin@),
        ensures
            res@ == added(self@, coin@),
    {
        let held: Vec<cosmwasm_std::Coin> = self.0.into_iter().map(
            |c| cosmwasm_std::Coin { denom: c.denom, amount: c.amount.into() },
        ).collect();
        let mut sum = cw0::NativeBalance(held);
        sum += cosmwasm_std::Coin { denom: coin.denom.clone(), amount: coin.amount.into() };
        NativeBalance(sum.0.into_iter().map(
            |c| Coin { denom: c.denom, amount: c.amount.u128() },
        ).collect())
    }

    /// Whether a coin can be added: the sum is an amount.
    pub fn can_add(&self, coin: &Coin) -> (res: bool)
        ensures
            res == addable(self@, coin@),
    {
        assert(self@.skip(0) =~= self@);
        for i in 0..self.0.len()
            invariant
                position(self@, coin@.denom) == i + position(self@.skip(i as int), coin@.denom),
        {
            assert(self@.skip(i as int)[0] == self.0[i as int]@);
            if self.0[i].denom == coin.denom {
                return self.0[i].amount <= u128::MAX - coin.amount;
            }
            assert(self@.skip(i as int).drop_first() =~= self@.skip(i + 1));
        }
        true
    }

    /// Whether there is nothing to spend: no coin has an amount.
    pub fn is_empty(&self) -> (res: bool)
        ensures
            res == exhausted(self@),
    {
        for i in 0..self.0.len()
            invariant
                forall|j: int| 0 <= j < i ==> (#[trigger] self@[j]).amount == 0,
        {
            assert(self@[i as int].amount == self.0[i as int].amount);
            if self.0[i].amount != 0 {
                return false;
            }
        }
        true
    }
}

/// How much of a denomination some coins are together.
pub open spec fn total(coins: Seq<CoinView>, denom: Seq<char>) -> nat
    decreases coins.len(),
{
    if coins.len() == 0 {
        0
    } else {
        total(coins.drop_last(), denom) + share(coins.last(), denom)
    }
}

/// How much of a denomination one coin is.
pub open spec fn share(coin: CoinView, denom: Seq<char>) -> nat {
    if coin.denom == denom {
        coin.amount as nat
    } else {
        0
    }
}

/// The total of some coins is that of the first ones and that of the rest.
proof fn lemma_total_split(coins: Seq<CoinView>, i: int, denom: Seq<char>)
    requires
        0 <= i <= coins.len(),
    ensures
        total(coins, denom) == total(coins.take(i), denom) + total(coins.skip(i), denom),
    decreases coins.len(),
{
    if i == coins.len() {
        assert(coins.take(i) =~= coins);
        assert(coins.skip(i).len() == 0);
    } else {
        lemma_total_split(coins.drop_last(), i, denom);
        assert(coins.drop_last().take(i) =~= coins.take(i));
        assert(coins.drop_last().skip(i) =~= coins.skip(i).drop_last());
    }
}

/// The total of some coins is that of the coins around one, and its share.
proof fn lemma_total_around(coins: Seq<CoinView>, i: int, denom: Seq<char>)
    requires
        0 <= i < coins.len(),
    ensures
        total(coins, denom) == total(coins.take(i), denom) + share(coins[i], denom) + total(
            coins.skip(i + 1),
            denom,
        ),
{
    lemma_total_split(coins, i + 1, denom);
    assert(coins.take(i + 1).drop_last() =~= coins.take(i));
}

/// What an update, a removal or an insertion does to the total.
proof fn lemma_total_edits(coins: Seq<CoinView>, i: int, coin: CoinView, denom: Seq<char>)
    requires
        0 <= i <= coins.len(),
    ensures
        i < coins.len() ==> total(coins.update(i, coin), denom) + share(coins[i], denom) == total(
            coins,
            denom,
        ) + share(coin, denom),
        i < coins.len() ==> total(coins.remove(i), denom) + share(coins[i], denom) == total(
            coins,
            denom,
        ),
        total(coins.insert(i, coin), denom) == total(coins, denom) + share(coin, denom),
{
    if i < coins.len() {
        lemma_total_around(coins, i, denom);
        lemma_total_around(coins.update(i, coin), i, denom);
        assert(coins.update(i, coin).take(i) =~= coins.take(i));
        assert(coins.update(i, coin).skip(i + 1) =~= coins.skip(i + 1));
        lemma_total_split(coins.remove(i), i, denom);
        assert(coins.remove(i).take(i) =~= coins.take(i));
        assert(coins.remove(i).skip(i) =~= coins.skip(i + 1));
    }
    lemma_total_split(coins, i, denom);
    lemma_total_around(coins.insert(i, coin), i, denom);
    assert(coins.insert(i, coin).take(i) =~= coins.take(i));
    assert(coins.insert(i, coin).skip(i + 1) =~= coins.skip(i));
}

/// The coin at the position of a denomination is the first one of it.
proof fn lemma_position(balance: Seq<CoinView>, denom: Seq<char>)
    ensures
        position(balance, denom) <= balance.len(),
        holds(balance, denom) ==> balance[position(balance, denom) as int].denom == denom,
        forall|i: int|
            0 <= i < position(balance, denom) ==> (#[trigger] balance[i]).denom != denom,
    decreases balance.len(),
{
    if balance.len() > 0 && balance[0].denom != denom {
        let rest = balance.drop_first();
        lemma_position(rest, denom);
        assert forall|i: int| 0 <= i < position(balance, denom) implies (
        #[trigger] balance[i]).denom != denom by {
            if i > 0 {
                assert(rest[i - 1] == balance[i]);
            }
        }
    }
}

/// A new denomination goes behind all lesser ones that stand in front.
proof fn lemma_insert_position(balance: Seq<CoinView>, denom: Seq<char>)
    ensures
        insert_position(balance, denom) <= balance.len(),
        insert_position(balance, denom) < balance.len() ==> !text_less(
            balance[insert_position(balance, denom) as int].denom,
            denom,
        ),
        forall|i: int|
            0 <= i < insert_position(balance, denom) ==> text_less(
                (#[trigger] balance[i]).denom,
                denom,
            ),
    decreases balance.len(),
{
    if balance.len() > 0 && text_less(balance[0].denom, denom) {
        let rest = balance.drop_first();
        lemma_insert_position(rest, denom);
        assert forall|i: int| 0 <= i < insert_position(balance, denom) implies text_less(
            (#[trigger] balance[i]).denom,
            denom,
        ) by {
            if i > 0 {
                assert(rest[i - 1] == balance[i]);
            }
        }
    }
}

/// Adding a coin adds its amount to the total of its denomination, and changes
/// no other total.
pub proof fn adding_adds(balance: Seq<CoinView>, coin: CoinView, denom: Seq<char>)
    requires
        addable(balance, coin),
    ensures
        total(added(balance, coin), denom) == total(balance, denom) + share(coin, denom),
{
    lemma_position(balance, coin.denom);
    lemma_insert_position(balance, coin.denom);
    if holds(balance, coin.denom) {
        let sum = (amount_of(balance, coin.denom) + coin.amount) as u128;
        lemma_total_edits(
            balance,
            position(balance, coin.denom) as int,
            CoinView { denom: coin.denom, amount: sum },
            denom,
        );
    } else {
        lemma_total_edits(
            balance,
            insert_position(balance, coin.denom) as int,
            coin,
            denom,
        );
    }
}

/// Taking one coin out takes its amount off the total of its denomination, and
/// changes no other total.
proof fn lemma_spending_one(balance: Seq<CoinView>, coin: CoinView, denom: Seq<char>)
    requires
        spent_one(balance, coin) is Some,
    ensures
        total(spent_one(balance, coin)->Some_0, denom) + share(coin, denom) == total(
            balance,
            denom,
        ),
{
    lemma_position(balance, coin.denom);
    let rest = (amount_of(balance, coin.denom) - coin.amount) as u128;
    lemma_total_edits(
        balance,
        position(balance, coin.denom) as int,
        CoinView { denom: coin.denom, amount: rest },
        denom,
    );
}

/// What is spent and what is left add up to what was there, for every
/// denomination.
pub proof fn spending_conserves(balance: Seq<CoinView>, coins: Seq<CoinView>, denom: Seq<char>)
    requires
        spent(balance, coins) is Some,
    ensures
        total(spent(balance, coins)->Some_0, denom) + total(coins, denom) == total(balance, denom),
    decreases coins.len(),
{
    if coins.len() > 0 {
        spending_conserves(balance, coins.drop_last(), denom);
        lemma_spending_one(spent(balance, coins.drop_last())->Some_0, coins.last(), denom);
    }
}

/// Positive coins can be spent wherever a balance, in which no denomination
/// stands twice, holds as much as they are together, for every denomination.
pub proof fn covered_coins_can_be_spent(balance: Seq<CoinView>, coins: Seq<CoinView>)
    requires
        distinct(balance),
        positive(coins),
        forall|d: Seq<char>| #[trigger] total(coins, d) <= total(balance, d),
    ensures
        spent(balance, coins) is Some,
    decreases coins.len(),
{
    if coins.len() > 0 {
        let (few, last) = (coins.drop_last(), coins.last());
        assert forall|i: int| 0 <= i < few.len() implies (#[trigger] few[i]).amount > 0 by {
            assert(few[i] == coins[i]);
        }
        assert forall|d: Seq<char>| #[trigger] total(few, d) <= total(balance, d) by {
            assert(total(coins, d) <= total(balance, d));
        }
        covered_coins_can_be_spent(balance, few);
        spending_conserves(balance, few, last.denom);
        spending_keeps_distinct(balance, few);
        let rest = spent(balance, few)->Some_0;
        assert(total(coins, last.denom) <= total(balance, last.denom));
        assert(coins[coins.len() - 1].amount > 0);
        distinct_amount(rest, last.denom);
    }
}

/// Whether every coin is worth something.
pub open spec fn positive(coins: Seq<CoinView>) -> bool {
    forall|i: int| 0 <= i < coins.len() ==> (#[trigger] coins[i]).amount > 0
}

/// Reducing a balance takes no more than the amount off the total of the coin's
/// denomination, and no more than the balance holds of it. It changes no other
/// total.
pub proof fn reducing_saturates(balance: Seq<CoinView>, coin: CoinView, denom: Seq<char>)
    requires
        reduced(balance, coin) is Some,
    ensures
        total(reduced(balance, coin)->Some_0, denom) + (if coin.denom != denom {
            0
        } else if amount_of(balance, denom) <= coin.amount {
            amount_of(balance, denom)
        } else {
            coin.amount as nat
        }) == total(balance, denom),
{
    lemma_position(balance, coin.denom);
    let rest = (amount_of(balance, coin.denom) - coin.amount) as u128;
    lemma_total_edits(
        balance,
        position(balance, coin.denom) as int,
        CoinView { denom: coin.denom, amount: rest },
        denom,
    );
}

/// Whether the denominations ascend. Then each stands there once.
pub open spec fn ordered(balance: Seq<CoinView>) -> bool {
    forall|i: int, j: int|
        0 <= i < j < balance.len() ==> text_less(
            (#[trigger] balance[i]).denom,
            (#[trigger] balance[j]).denom,
        )
}

/// Whether no denomination stands there twice.
pub open spec fn distinct(balance: Seq<CoinView>) -> bool {
    forall|i: int, j: int|
        0 <= i < j < balance.len() ==> (#[trigger] balance[i]).denom != (
        #[trigger] balance[j]).denom
}

/// In an ordered balance no denomination stands twice.
pub proof fn ordered_is_distinct(balance: Seq<CoinView>)
    requires
        ordered(balance),
    ensures
        distinct(balance),
{
    assert forall|i: int, j: int| 0 <= i < j < balance.len() implies (#[trigger] balance[i]).denom
        != (#[trigger] balance[j]).denom by {
        text_less_total(balance[i].denom, balance[j].denom);
    }
}

/// Where no denomination stands twice, its coin is all there is of it.
pub proof fn distinct_amount(balance: Seq<CoinView>, denom: Seq<char>)
    requires
        distinct(balance),
    ensures
        amount_of(balance, denom) == total(balance, denom),
{
    lemma_position(balance, denom);
    let p = position(balance, denom) as int;
    if p < balance.len() {
        lemma_total_around(balance, p, denom);
        assert forall|i: int| 0 <= i < balance.skip(p + 1).len() implies (
        #[trigger] balance.skip(p + 1)[i]).denom != denom by {
            assert(balance[p].denom != balance[p + 1 + i].denom);
        }
        lemma_none_of(balance.skip(p + 1), denom);
        lemma_none_of(balance.take(p), denom);
    } else {
        lemma_none_of(balance, denom);
    }
}

/// Coins of other denominations count nothing.
proof fn lemma_none_of(coins: Seq<CoinView>, denom: Seq<char>)
    requires
        forall|i: int| 0 <= i < coins.len() ==> (#[trigger] coins[i]).denom != denom,
    ensures
        total(coins, denom) == 0,
    decreases coins.len(),
{
    if coins.len() > 0 {
        lemma_none_of(coins.drop_last(), denom);
    }
}

/// A balance with nothing to spend holds nothing of any denomination.
pub proof fn exhausted_total(balance: Seq<CoinView>, denom: Seq<char>)
    requires
        exhausted(balance),
    ensures
        total(balance, denom) == 0,
    decreases balance.len(),
{
    if balance.len() > 0 {
        assert(balance[balance.len() - 1].amount == 0);
        assert forall|i: int| 0 <= i < balance.drop_last().len() implies (
        #[trigger] balance.drop_last()[i]).amount == 0 by {
            assert(balance[i].amount == 0);
        }
        exhausted_total(balance.drop_last(), denom);
    }
}

/// Adding a coin keeps a balance ordered.
pub proof fn adding_keeps_order(balance: Seq<CoinView>, coin: CoinView)
    requires
        ordered(balance),
    ensures
        ordered(added(balance, coin)),
{
    lemma_position(balance, coin.denom);
    lemma_insert_position(balance, coin.denom);
    let sum = added(balance, coin);
    let p = insert_position(balance, coin.denom) as int;
    if !holds(balance, coin.denom) {
        assert forall|i: int, j: int| 0 <= i < j < sum.len() implies text_less(
            (#[trigger] sum[i]).denom,
            (#[trigger] sum[j]).denom,
        ) by {
            if i == p {
                // The coin now at j stood at j - 1, not before p.
                text_less_total(balance[p].denom, coin.denom);
                if p < j - 1 {
                    text_less_transitive(coin.denom, balance[p].denom, balance[j - 1].denom);
                }
            }
        }
    }
}

/// Spending keeps a balance ordered.
pub proof fn spending_keeps_order(balance: Seq<CoinView>, coins: Seq<CoinView>)
    requires
        ordered(balance),
        spent(balance, coins) is Some,
    ensures
        ordered(spent(balance, coins)->Some_0),
    decreases coins.len(),
{
    if coins.len() > 0 {
        spending_keeps_order(balance, coins.drop_last());
        lemma_position(spent(balance, coins.drop_last())->Some_0, coins.last().denom);
    }
}

/// Spending repeats no denomination.
pub proof fn spending_keeps_distinct(balance: Seq<CoinView>, coins: Seq<CoinView>)
    requires
        distinct(balance),
        spent(balance, coins) is Some,
    ensures
        distinct(spent(balance, coins)->Some_0),
    decreases coins.len(),
{
    if coins.len() > 0 {
        spending_keeps_distinct(balance, coins.drop_last());
        lemma_position(spent(balance, coins.drop_last())->Some_0, coins.last().denom);
    }
}

/// Reducing keeps a balance ordered.
pub proof fn reducing_keeps_order(balance: Seq<CoinView>, coin: CoinView)
    requires
        ordered(balance),
        reduced(balance, coin) is Some,
    ensures
        ordered(reduced(balance, coin)->Some_0),
{
    lemma_position(balance, coin.denom);
}

/// Reducing takes back what was added. The exception is a balance that held the
/// coin with no amount: the coin leaves it.
pub proof fn reducing_undoes_adding(balance: Seq<CoinView>, coin: CoinView)
    requires
        addable(balance, coin),
        holds(balance, coin.denom) ==> amount_of(balance, coin.denom) > 0,
    ensures
        reduced(added(balance, coin), coin) == Some(balance),
{
    lemma_position(balance, coin.denom);
    lemma_insert_position(balance, coin.denom);
    let sum = added(balance, coin);
    let p = if holds(balance, coin.denom) {
        position(balance, coin.denom)
    } else {
        insert_position(balance, coin.denom)
    };
    lemma_first_of(sum, coin.denom, p);
    assert(reduced(sum, coin)->Some_0 =~= balance);
}

/// The first coin of a denomination stands at its position.
proof fn lemma_first_of(balance: Seq<CoinView>, denom: Seq<char>, p: nat)
    requires
        p < balance.len(),
        balance[p as int].denom == denom,
        forall|i: int| 0 <= i < p ==> (#[trigger] balance[i]).denom != denom,
    ensures
        position(balance, denom) == p,
{
    lemma_position(balance, denom);
}

/// A new denomination goes where all in front are less and the next is not.
proof fn lemma_insert_at(balance: Seq<CoinView>, denom: Seq<char>, p: nat)
    requires
        p <= balance.len(),
        p < balance.len() ==> !text_less(balance[p as int].denom, denom),
        forall|i: int| 0 <= i < p ==> text_less((#[trigger] balance[i]).denom, denom),
    ensures
        insert_position(balance, denom) == p,
{
    lemma_insert_position(balance, denom);
}

/// Adding a coin changes what is held of its own denomination only.
proof fn lemma_added_amounts(balance: Seq<CoinView>, coin: CoinView, denom: Seq<char>)
    requires
        addable(balance, coin),
    ensures
        holds(added(balance, coin), denom) == (holds(balance, denom) || denom == coin.denom),
        amount_of(added(balance, coin), denom) == amount_of(balance, denom) + share(coin, denom),
{
    lemma_position(balance, denom);
    lemma_position(balance, coin.denom);
    lemma_insert_position(balance, coin.denom);
    let sum = added(balance, coin);
    lemma_position(sum, denom);
    let at = position(balance, denom);
    if holds(balance, coin.denom) {
        if holds(balance, denom) {
            lemma_first_of(sum, denom, at);
        } else if holds(sum, denom) {
            assert(balance[position(sum, denom) as int].denom == denom);
            lemma_position_below(balance, denom, position(sum, denom) as int);
        }
    } else {
        let p = insert_position(balance, coin.denom);
        if denom == coin.denom {
            lemma_first_of(sum, denom, p);
        } else if holds(balance, denom) {
            lemma_shifted(balance, coin, p, denom);
        } else if holds(sum, denom) {
            let q = position(sum, denom) as int;
            let from = if q < p { q } else { q - 1 };
            assert(balance[from].denom == denom);
            lemma_position_below(balance, denom, from);
        }
    }
}

/// A denomination that stands somewhere is held.
proof fn lemma_position_below(balance: Seq<CoinView>, denom: Seq<char>, i: int)
    requires
        0 <= i < balance.len(),
        balance[i].denom == denom,
    ensures
        holds(balance, denom),
{
    lemma_position(balance, denom);
}

/// Adding one coin and then another of the same denomination is adding their sum.
pub proof fn adding_twice_adds_the_sum(
    balance: Seq<CoinView>,
    denom: Seq<char>,
    x: u128,
    y: u128,
)
    requires
        amount_of(balance, denom) + x + y <= u128::MAX,
    ensures
        added(added(balance, CoinView { denom, amount: x }), CoinView { denom, amount: y })
            == added(balance, CoinView { denom, amount: (x + y) as u128 }),
{
    let first = CoinView { denom, amount: x };
    let once = added(balance, first);
    lemma_position(balance, denom);
    lemma_insert_position(balance, denom);
    lemma_added_amounts(balance, first, denom);
    let p = if holds(balance, denom) {
        position(balance, denom)
    } else {
        insert_position(balance, denom)
    };
    lemma_first_of(once, denom, p);
    assert(added(once, CoinView { denom, amount: y }) =~= added(
        balance,
        CoinView { denom, amount: (x + y) as u128 },
    ));
}

/// It does not matter in which order two coins are added.
pub proof fn adding_commutes(balance: Seq<CoinView>, x: CoinView, y: CoinView)
    requires
        addable(balance, x),
        addable(added(balance, x), y),
    ensures
        addable(balance, y),
        addable(added(balance, y), x),
        added(added(balance, x), y) == added(added(balance, y), x),
{
    lemma_added_amounts(balance, x, y.denom);
    assert(addable(balance, y));
    lemma_added_amounts(balance, y, x.denom);
    if x.denom == y.denom {
        adding_twice_adds_the_sum(balance, x.denom, x.amount, y.amount);
        adding_twice_adds_the_sum(balance, x.denom, y.amount, x.amount);
    } else {
        text_less_total(x.denom, y.denom);
        if text_less(x.denom, y.denom) {
            lemma_adding_commutes(balance, x, y);
        } else {
            lemma_adding_commutes(balance, y, x);
        }
    }
}

/// It does not matter in which order a coin and one of a greater denomination are
/// added.
proof fn lemma_adding_commutes(balance: Seq<CoinView>, x: CoinView, y: CoinView)
    requires
        addable(balance, x),
        addable(balance, y),
        text_less(x.denom, y.denom),
    ensures
        added(added(balance, x), y) == added(added(balance, y), x),
{
    text_less_total(x.denom, y.denom);
    lemma_position(balance, x.denom);
    lemma_position(balance, y.denom);
    lemma_insert_position(balance, x.denom);
    lemma_insert_position(balance, y.denom);
    lemma_added_amounts(balance, x, y.denom);
    lemma_added_amounts(balance, y, x.denom);
    let (with_x, with_y) = (added(balance, x), added(balance, y));
    let (px, py) = (position(balance, x.denom), position(balance, y.denom));
    let (ix, iy) = (insert_position(balance, x.denom), insert_position(balance, y.denom));
    if holds(balance, x.denom) && holds(balance, y.denom) {
        lemma_first_of(with_x, y.denom, py);
        lemma_first_of(with_y, x.denom, px);
    } else if holds(balance, x.denom) {
        lemma_insert_at(with_x, y.denom, iy);
        lemma_shifted(balance, y, iy, x.denom);
    } else if holds(balance, y.denom) {
        lemma_insert_at(with_y, x.denom, ix);
        lemma_shifted(balance, x, ix, y.denom);
    } else {
        assert(ix <= iy) by {
            if iy < ix {
                text_less_transitive(balance[iy as int].denom, x.denom, y.denom);
            }
        }
        assert forall|i: int| 0 <= i < iy + 1 implies text_less(
            (#[trigger] with_x[i]).denom,
            y.denom,
        ) by {
            if i < ix {
                assert(with_x[i] == balance[i]);
                assert(text_less(balance[i].denom, y.denom));
            } else if i > ix {
                assert(with_x[i] == balance[i - 1]);
                assert(text_less(balance[i - 1].denom, y.denom));
            }
        }
        if iy < balance.len() {
            assert(with_x[iy as int + 1] == balance[iy as int]);
        }
        lemma_insert_at(with_x, y.denom, iy + 1);
        assert forall|i: int| 0 <= i < ix implies text_less(
            (#[trigger] with_y[i]).denom,
            x.denom,
        ) by {
            assert(with_y[i] == balance[i]);
        }
        if ix < iy {
            assert(with_y[ix as int] == balance[ix as int]);
        } else {
            assert(with_y[ix as int] == y);
        }
        lemma_insert_at(with_y, x.denom, ix);
    }
    assert(added(with_x, y) =~= added(with_y, x));
}

/// Where a denomination stands after a coin of another one was inserted.
proof fn lemma_shifted(balance: Seq<CoinView>, coin: CoinView, p: nat, denom: Seq<char>)
    requires
        p <= balance.len(),
        coin.denom != denom,
        holds(balance, denom),
    ensures
        position(balance.insert(p as int, coin), denom) == position(balance, denom) + (if position(
            balance,
            denom,
        ) < p {
            0nat
        } else {
            1nat
        }),
{
    lemma_position(balance, denom);
    let sum = balance.insert(p as int, coin);
    let at = position(balance, denom);
    let to = if at < p { at } else { at + 1 };
    assert(sum[to as int] == balance[at as int]);
    assert forall|i: int| 0 <= i < to implies (#[trigger] sum[i]).denom != denom by {
        if i < p {
            assert(sum[i] == balance[i]);
        } else if i > p {
            assert(sum[i] == balance[i - 1]);
        }
    }
    lemma_first_of(sum, denom, to);
}

/// Whether the first coin of a denomination stands at a place.
pub open spec fn first_at(balance: Seq<CoinView>, denom: Seq<char>, i: int) -> bool {
    &&& 0 <= i < balance.len()
    &&& balance[i].denom == denom
    &&& forall|j: int| 0 <= j < i ==> (#[trigger] balance[j]).denom != denom
}

/// Whether no coin is of a denomination.
pub open spec fn lacks(balance: Seq<CoinView>, denom: Seq<char>) -> bool {
    forall|i: int| 0 <= i < balance.len() ==> (#[trigger] balance[i]).denom != denom
}

/// The position of a denomination is where its first coin stands.
proof fn lemma_first_at(balance: Seq<CoinView>, denom: Seq<char>)
    ensures
        forall|i: int| #[trigger]
            first_at(balance, denom, i) ==> holds(balance, denom) && position(balance, denom) == i,
        lacks(balance, denom) == !holds(balance, denom),
        holds(balance, denom) ==> first_at(balance, denom, position(balance, denom) as int),
{
    lemma_position(balance, denom);
    assert forall|i: int| #[trigger] first_at(balance, denom, i) implies holds(balance, denom)
        && position(balance, denom) == i by {
        lemma_first_of(balance, denom, i as nat);
    }
}

/// A coin can be added exactly where the first coin of its denomination, if there
/// is one, stays an amount.
pub proof fn addable_in_place(balance: Seq<CoinView>, coin: CoinView)
    ensures
        addable(balance, coin) <==> forall|i: int| #[trigger]
            first_at(balance, coin.denom, i) ==> balance[i].amount + coin.amount <= u128::MAX,
{
    lemma_first_at(balance, coin.denom);
}

/// A coin is added to the first coin of its denomination. If there is none, it is
/// put in behind all lesser denominations that stand in front. Nothing else
/// changes.
pub proof fn added_in_place(balance: Seq<CoinView>, coin: CoinView)
    requires
        addable(balance, coin),
    ensures
        forall|i: int| #[trigger]
            first_at(balance, coin.denom, i) ==> added(balance, coin) == balance.update(
                i,
                CoinView { denom: coin.denom, amount: (balance[i].amount + coin.amount) as u128 },
            ),
        lacks(balance, coin.denom) ==> exists|p: int|
            {
                &&& 0 <= p <= balance.len()
                &&& added(balance, coin) == #[trigger] balance.insert(p, coin)
                &&& forall|j: int|
                    0 <= j < p ==> text_less((#[trigger] balance[j]).denom, coin.denom)
                &&& p < balance.len() ==> !text_less(balance[p].denom, coin.denom)
            },
{
    lemma_first_at(balance, coin.denom);
    lemma_insert_position(balance, coin.denom);
    let p = insert_position(balance, coin.denom) as int;
    if lacks(balance, coin.denom) {
        assert(added(balance, coin) == balance.insert(p, coin));
    }
}

/// Up to an amount is taken off the first coin of a denomination. A coin of which
/// nothing is left leaves. Nothing else changes. Where there is no such coin,
/// nothing can be taken.
pub proof fn reduced_in_place(balance: Seq<CoinView>, coin: CoinView)
    ensures
        reduced(balance, coin) is None <==> lacks(balance, coin.denom),
        forall|i: int| #[trigger]
            first_at(balance, coin.denom, i) ==> reduced(balance, coin) == Some(
                if balance[i].amount <= coin.amount {
                    balance.remove(i)
                } else {
                    balance.update(
                        i,
                        CoinView {
                            denom: coin.denom,
                            amount: (balance[i].amount - coin.amount) as u128,
                        },
                    )
                },
            ),
{
    lemma_first_at(balance, coin.denom);
}

/// One coin is spent off the first coin of its denomination, if that is enough. A
/// coin of which nothing is left leaves. Nothing else changes. Otherwise the error
/// names what was held and what was asked.
pub proof fn spent_in_place(balance: Seq<CoinView>, coin: CoinView)
    ensures
        forall|i: int| #[trigger]
            first_at(balance, coin.denom, i) ==> if balance[i].amount < coin.amount {
                &&& spent(balance, seq![coin]) is None
                &&& overspent(balance, seq![coin]) == sub_overflow(
                    balance[i].amount as nat,
                    coin.amount,
                )
            } else if balance[i].amount == coin.amount {
                spent(balance, seq![coin]) == Some(balance.remove(i))
            } else {
                spent(balance, seq![coin]) == Some(
                    balance.update(
                        i,
                        CoinView {
                            denom: coin.denom,
                            amount: (balance[i].amount - coin.amount) as u128,
                        },
                    ),
                )
            },
        lacks(balance, coin.denom) ==> spent(balance, seq![coin]) is None && overspent(
            balance,
            seq![coin],
        ) == sub_overflow(0, coin.amount),
        spent(balance, seq![]) == Some(balance),
{
    lemma_first_at(balance, coin.denom);
    assert(seq![coin].drop_last() =~= seq![]);
    reveal_with_fuel(spent, 2);
    reveal_with_fuel(overspent, 2);
}

/// Coins are spent one after the other: some coins and then others are spent as
/// all of them together, with the same first error.
pub proof fn spent_in_turn(balance: Seq<CoinView>, a: Seq<CoinView>, b: Seq<CoinView>)
    ensures
        match spent(balance, a) {
            None => spent(balance, a + b) is None && overspent(balance, a + b) == overspent(
                balance,
                a,
            ),
            Some(rest) => spent(balance, a + b) == spent(rest, b) && (spent(rest, b) is None
                ==> overspent(balance, a + b) == overspent(rest, b)),
        },
    decreases b.len(),
{
    if b.len() > 0 {
        spent_in_turn(balance, a, b.drop_last());
        assert((a + b).drop_last() =~= a + b.drop_last());
    } else {
        assert(a + b =~= a);
    }
}

} // verus!
