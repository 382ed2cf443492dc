//! The JSON forms in which allowances and permissions are kept: objects with one
//! field for each part, in a fixed order and without spaces.

use cosmwasm_std::{StdError, Timestamp};
use cw0::Expiration as StoredExpiration;
use cw0::NativeBalance as StoredBalance;
use vstd::prelude::*;
use vstd::slice::{slice_subrange, slice_to_vec};
use vstd::utf8::{encode_utf8, encode_utf8_decode_utf8, is_ascii_chars_encode_utf8};

use crate::balance::NativeBalance;
use crate::state::{Allowance, AllowanceView, Expiration, Permissions};
use crate::text::{truth, truth_text};
use crate::types::{Coin, CoinView};

verus! {

/// The bytes of a text.
pub(crate) fn text_bytes(text: &str) -> (res: Vec<u8>)
    ensures
        res@ == encode_utf8(text@),
{
    slice_to_vec(text.as_bytes())
}

/// Whether bytes hold a part at a place.
fn has_at(bytes: &Vec<u8>, at: usize, part: &Vec<u8>) -> (res: bool)
    ensures
        res == (at + part@.len() <= bytes@.len() && bytes@.subrange(at as int, at + part@.len())
            == part@),
{
    if at > bytes.len() || part.len() > bytes.len() - at {
        return false;
    }
    let ghost there = bytes@.subrange(at as int, at + part@.len());
    for i in 0..part.len()
        invariant
            at + part@.len() <= bytes@.len(),
            there == bytes@.subrange(at as int, at + part@.len()),
            forall|j: int| 0 <= j < i ==> there[j] == part@[j],
    {
        assert(at + i < bytes.len());
        if bytes[at + i] != part[i] {
            assert(there[i as int] != part@[i as int]);
            return false;
        }
    }
    assert(there =~= part@);
    true
}

/// The error that `cosmwasm_std::StdError::parse_err` makes.
pub uninterp spec fn parse_failure(target: Seq<char>, msg: Seq<char>) -> StdError;

/// Calls `cosmwasm_std::StdError::parse_err`: the error of bytes that do not
/// parse as a type, with a message.
#[verifier::external_body]
fn parse_err(target: &str, msg: &str) -> (res: StdError)
    ensures
        res == parse_failure(target@, msg@),
{
    StdError::parse_err(target, msg)
}

/// A value that parses.
pub open spec fn parses_to<V>(value: V) -> Result<V, StdError> {
    Ok(value)
}

/// Permissions as a JSON object.
pub open spec fn permissions_text(permissions: Permissions) -> Seq<char> {
    "{\"delegate\":"@ + truth(permissions.delegate) + ",\"redelegate\":"@ + truth(
        permissions.redelegate,
    ) + ",\"undelegate\":"@ + truth(permissions.undelegate) + ",\"withdraw\":"@ + truth(
        permissions.withdraw,
    ) + "}"@
}

/// The bytes that permissions are kept as.
pub open spec fn permissions_json(permissions: Permissions) -> Seq<u8> {
    encode_utf8(permissions_text(permissions))
}

/// What bytes that are kept as permissions stand for.
pub open spec fn permissions_parsed(bytes: Seq<u8>) -> Result<Permissions, StdError> {
    if exists|p: Permissions| #[trigger] permissions_json(p) == bytes {
        Ok(choose|p: Permissions| #[trigger] permissions_json(p) == bytes)
    } else {
        Err(parse_failure("cw1_subkeys::state::Permissions"@, "not an object of four flags"@))
    }
}

/// The last flag of permissions as a JSON object.
spec fn from_withdraw(p: Permissions) -> Seq<char> {
    ",\"withdraw\":"@ + truth(p.withdraw) + "}"@
}

/// The last two flags of permissions as a JSON object.
spec fn from_undelegate(p: Permissions) -> Seq<char> {
    ",\"undelegate\":"@ + truth(p.undelegate) + from_withdraw(p)
}

/// The last three flags of permissions as a JSON object.
spec fn from_redelegate(p: Permissions) -> Seq<char> {
    ",\"redelegate\":"@ + truth(p.redelegate) + from_undelegate(p)
}

/// Permissions as a JSON object are the first flag and the rest.
proof fn lemma_nested(p: Permissions)
    ensures
        permissions_text(p) == "{\"delegate\":"@ + truth(p.delegate) + from_redelegate(p),
{
    lemma_regroup(
        "{\"delegate\":"@ + truth(p.delegate) + ",\"redelegate\":"@ + truth(p.redelegate)
            + ",\"undelegate\":"@ + truth(p.undelegate),
        ",\"withdraw\":"@,
        truth(p.withdraw),
        "}"@,
    );
    lemma_regroup(
        "{\"delegate\":"@ + truth(p.delegate) + ",\"redelegate\":"@ + truth(p.redelegate),
        ",\"undelegate\":"@,
        truth(p.undelegate),
        from_withdraw(p),
    );
    lemma_regroup(
        "{\"delegate\":"@ + truth(p.delegate),
        ",\"redelegate\":"@,
        truth(p.redelegate),
        from_undelegate(p),
    );
}

/// It does not matter how texts in a row are grouped.
proof fn lemma_regroup(a: Seq<char>, b: Seq<char>, c: Seq<char>, d: Seq<char>)
    ensures
        a + b + c + d == a + (b + c + d),
{
    assert(a + b + c + d =~= a + (b + c + d));
}

/// A flag between two texts that are known can be told.
proof fn lemma_flag(head: Seq<char>, a: bool, b: bool, x: Seq<char>, y: Seq<char>)
    requires
        head + truth(a) + x == head + truth(b) + y,
    ensures
        a == b,
        x == y,
{
    reveal_strlit("true");
    reveal_strlit("false");
    let (left, right) = (head + truth(a) + x, head + truth(b) + y);
    assert(left[head.len() as int] == truth(a)[0]);
    assert(right[head.len() as int] == truth(b)[0]);
    let n = (head + truth(a)).len() as int;
    assert(left.skip(n) =~= x);
    assert(right.skip(n) =~= y);
}

/// Different permissions are kept as different bytes, so what is written parses
/// back.
pub proof fn permissions_read_back(permissions: Permissions)
    ensures
        permissions_parsed(permissions_json(permissions)) == parses_to(permissions),
{
    let bytes = permissions_json(permissions);
    assert forall|other: Permissions| #[trigger] permissions_json(other) == bytes implies other
        == permissions by {
        encode_utf8_decode_utf8(permissions_text(permissions));
        encode_utf8_decode_utf8(permissions_text(other));
        let (p, q) = (permissions, other);
        lemma_nested(p);
        lemma_nested(q);
        lemma_flag(
            "{\"delegate\":"@,
            p.delegate,
            q.delegate,
            from_redelegate(p),
            from_redelegate(q),
        );
        lemma_flag(
            ",\"redelegate\":"@,
            p.redelegate,
            q.redelegate,
            from_undelegate(p),
            from_undelegate(q),
        );
        lemma_flag(
            ",\"undelegate\":"@,
            p.undelegate,
            q.undelegate,
            from_withdraw(p),
            from_withdraw(q),
        );
        lemma_flag(",\"withdraw\":"@, p.withdraw, q.withdraw, "}"@, "}"@);
    }
}

/// Writes permissions as a JSON object.
pub fn write_permissions(permissions: &Permissions) -> (res: Vec<u8>)
    ensures
        res@ == permissions_json(*permissions),
        res@.len() > 0,
{
    let mut text = "{\"delegate\":".to_owned();
    text.append(truth_text(permissions.delegate));
    text.append(",\"redelegate\":");
    text.append(truth_text(permissions.redelegate));
    text.append(",\"undelegate\":");
    text.append(truth_text(permissions.undelegate));
    text.append(",\"withdraw\":");
    text.append(truth_text(permissions.withdraw));
    text.append("}");
    proof {
        reveal_strlit("}");
        if encode_utf8(text@).len() == 0 {
            encode_utf8_decode_utf8(text@);
            encode_utf8_decode_utf8(seq![]);
            assert(encode_utf8(text@) =~= encode_utf8(seq![]));
            assert(text@.len() > 0);
        }
    }
    text_bytes(text.as_str())
}

/// The permissions that a number from 0 to 15 stands for.
spec fn flags(n: nat) -> Permissions {
    Permissions {
        delegate: n % 2 == 1,
        redelegate: n / 2 % 2 == 1,
        undelegate: n / 4 % 2 == 1,
        withdraw: n / 8 % 2 == 1,
    }
}

/// Reads permissions. There are sixteen objects that it knows.
pub fn parse_permissions(bytes: &Vec<u8>) -> (res: Result<Permissions, StdError>)
    ensures
        res == permissions_parsed(bytes@),
{
    for n in 0u8..16
        invariant
            forall|m: nat| m < n ==> permissions_json(#[trigger] flags(m)) != bytes@,
    {
        let candidate = Permissions {
            delegate: n % 2 == 1,
            redelegate: n / 2 % 2 == 1,
            undelegate: n / 4 % 2 == 1,
            withdraw: n / 8 % 2 == 1,
        };
        let json = write_permissions(&candidate);
        if json.len() == bytes.len() && has_at(bytes, 0, &json) {
            proof {
                assert(bytes@.subrange(0, bytes@.len() as int) =~= bytes@);
                permissions_read_back(candidate);
            }
            return Ok(candidate);
        }
        proof {
            assert(flags(n as nat) == candidate);
            assert(bytes@.subrange(0, bytes@.len() as int) =~= bytes@);
        }
    }
    proof {
        assert forall|p: Permissions| #[trigger] permissions_json(p) != bytes@ by {
            let bit = |b: bool| if b { 1nat } else { 0nat };
            let m = bit(p.delegate) + 2 * bit(p.redelegate) + 4 * bit(p.undelegate) + 8 * bit(
                p.withdraw,
            );
            assert(flags(m) == p);
        }
    }
    Err(parse_err("cw1_subkeys::state::Permissions", "not an object of four flags"))
}

/// The bytes that `cosmwasm_std::to_vec` makes of a `cw0::NativeBalance`.
pub uninterp spec fn balance_json(balance: Seq<CoinView>) -> Seq<u8>;

/// What `cosmwasm_std::from_slice` makes of the bytes of a `cw0::NativeBalance`.
pub uninterp spec fn balance_parsed(bytes: Seq<u8>) -> Result<Seq<CoinView>, StdError>;

/// The bytes that `cosmwasm_std::to_vec` makes of a `cw0::Expiration`.
pub uninterp spec fn expiration_json(expires: Expiration) -> Seq<u8>;

/// What `cosmwasm_std::from_slice` makes of the bytes of a `cw0::Expiration`.
pub uninterp spec fn expiration_parsed(bytes: Seq<u8>) -> Result<Expiration, StdError>;

/// Whether no byte is a comma.
pub open spec fn comma_free(bytes: Seq<u8>) -> bool {
    forall|i: int| 0 <= i < bytes.len() ==> #[trigger] bytes[i] != 44
}

/// Calls `cosmwasm_std::to_vec` on a `cw0::NativeBalance`. It does not fail, and
/// what it makes parses back.
#[verifier::external_body]
fn write_balance(balance: &NativeBalance) -> (res: Result<Vec<u8>, StdError>)
    ensures
        res is Ok,
        res->Ok_0@ == balance_json(balance@),
        balance_parsed(res->Ok_0@) == parses_to(balance@),
{
    cosmwasm_std::to_vec(&StoredBalance(balance.0.iter().map(
        |c| cosmwasm_std::Coin { denom: c.denom.clone(), amount: c.amount.into() },
    ).collect()))
}

/// What a parsed balance stands for.
pub open spec fn balance_result(res: Result<NativeBalance, StdError>) -> Result<
    Seq<CoinView>,
    StdError,
> {
    match res {
        Ok(balance) => Ok(balance@),
        Err(e) => Err(e),
    }
}

/// Calls `cosmwasm_std::from_slice` for a `cw0::NativeBalance`.
#[verifier::external_body]
fn parse_balance(bytes: &Vec<u8>) -> (res: Result<NativeBalance, StdError>)
    ensures
        balance_result(res) == balance_parsed(bytes@),
{
    let balance: StoredBalance = cosmwasm_std::from_slice(bytes)?;
    Ok(NativeBalance(balance.0.into_iter().map(
        |c| Coin { denom: c.denom, amount: c.amount.u128() },
    ).collect()))
}

/// Calls `cosmwasm_std::to_vec` on a `cw0::Expiration`: an object with a single
/// field, which holds a number, bare or in quotes, or an empty object. It does not
/// fail, and what it makes parses back.
#[verifier::external_body]
fn write_expiration(expires: Expiration) -> (res: Result<Vec<u8>, StdError>)
    ensures
        res is Ok,
        res->Ok_0@ == expiration_json(expires),
        comma_free(res->Ok_0@),
        expiration_parsed(res->Ok_0@) == parses_to(expires),
{
    cosmwasm_std::to_vec(&match expires {
        Expiration::AtHeight(h) => StoredExpiration::AtHeight(h),
        Expiration::AtTime(t) => StoredExpiration::AtTime(Timestamp::from_nanos(t)),
        Expiration::Never {  } => StoredExpiration::Never {  },
    })
}

/// Calls `cosmwasm_std::from_slice` for a `cw0::Expiration`.
#[verifier::external_body]
fn parse_expiration(bytes: &Vec<u8>) -> (res: Result<Expiration, StdError>)
    ensures
        res == expiration_parsed(bytes@),
{
    Ok(match cosmwasm_std::from_slice(bytes)? {
        StoredExpiration::AtHeight(h) => Expiration::AtHeight(h),
        StoredExpiration::AtTime(t) => Expiration::AtTime(t.nanos()),
        StoredExpiration::Never {  } => Expiration::Never {  },
    })
}

/// The object whose fields are a balance and an expiration.
pub open spec fn allowance_object(balance: Seq<u8>, expires: Seq<u8>) -> Seq<u8> {
    encode_utf8("{\"balance\":"@) + balance + encode_utf8(",\"expires\":"@) + expires + encode_utf8(
        "}"@,
    )
}

/// Whether bytes are such an object. No expiration has a comma, so it begins
/// after the last one.
pub open spec fn is_allowance_object(bytes: Seq<u8>, parts: (Seq<u8>, Seq<u8>)) -> bool {
    bytes == allowance_object(parts.0, parts.1) && comma_free(parts.1)
}

/// The bytes that an allowance is kept as.
pub open spec fn allowance_json(allowance: AllowanceView) -> Seq<u8> {
    allowance_object(balance_json(allowance.balance), expiration_json(allowance.expires))
}

/// What bytes that are kept as an allowance stand for.
pub open spec fn allowance_parsed(bytes: Seq<u8>) -> Result<AllowanceView, StdError> {
    if exists|parts: (Seq<u8>, Seq<u8>)| #[trigger] is_allowance_object(bytes, parts) {
        let parts = choose|parts: (Seq<u8>, Seq<u8>)| #[trigger] is_allowance_object(bytes, parts);
        match (balance_parsed(parts.0), expiration_parsed(parts.1)) {
            (Err(e), _) => Err(e),
            (Ok(_), Err(e)) => Err(e),
            (Ok(balance), Ok(expires)) => Ok(AllowanceView { balance, expires }),
        }
    } else {
        Err(
            parse_failure(
                "cw1_subkeys::state::Allowance"@,
                "not an object of a balance and an expiration"@,
            ),
        )
    }
}

/// The bytes around the parts of an allowance.
proof fn lemma_allowance_literals()
    ensures
        encode_utf8(",\"expires\":"@).len() > 0,
        encode_utf8(",\"expires\":"@)[0] == 44,
        comma_free(encode_utf8(",\"expires\":"@).skip(1)),
        encode_utf8("}"@) == seq![125u8],
{
    reveal_strlit(",\"expires\":");
    reveal_strlit("}");
    is_ascii_chars_encode_utf8(",\"expires\":"@);
    is_ascii_chars_encode_utf8("}"@);
    let (text, bytes) = (",\"expires\":"@, encode_utf8(",\"expires\":"@));
    assert(text[0] == ',');
    let tail = bytes.skip(1);
    assert forall|i: int| 0 <= i < tail.len() implies #[trigger] tail[i] != 44 by {
        assert(bytes[i + 1] == text[i + 1] as u8);
        assert(text[i + 1] != ',');
    }
    assert("}"@[0] == '}');
    assert(encode_utf8("}"@) =~= seq![125u8]);
}

/// Where the last comma of an allowance stands: in front of its expiration.
proof fn lemma_last_comma(bytes: Seq<u8>, parts: (Seq<u8>, Seq<u8>), cut: int)
    requires
        is_allowance_object(bytes, parts),
        0 <= cut < bytes.len(),
        bytes[cut] == 44,
        comma_free(bytes.skip(cut + 1)),
    ensures
        cut == encode_utf8("{\"balance\":"@).len() + parts.0.len(),
{
    lemma_allowance_literals();
    let head = encode_utf8("{\"balance\":"@);
    let middle = encode_utf8(",\"expires\":"@);
    let at = head.len() + parts.0.len();
    assert(bytes[at as int] == middle[0]);
    if cut < at {
        assert(bytes.skip(cut + 1)[at - cut - 1] == 44);
    }
    if at < cut < at + middle.len() {
        assert(bytes[cut] == middle.skip(1)[cut - at - 1]);
    } else if at + middle.len() <= cut < bytes.len() - 1 {
        assert(bytes[cut] == parts.1[cut - at - middle.len()]);
    }
}

/// An object has its parts in one way only.
pub proof fn lemma_parts_unique(bytes: Seq<u8>, a: (Seq<u8>, Seq<u8>), b: (Seq<u8>, Seq<u8>))
    requires
        is_allowance_object(bytes, a),
        is_allowance_object(bytes, b),
    ensures
        a == b,
{
    lemma_allowance_literals();
    let head = encode_utf8("{\"balance\":"@);
    let middle = encode_utf8(",\"expires\":"@);
    let at = (head.len() + a.0.len()) as int;
    assert forall|i: int| 0 <= i < bytes.skip(at + 1).len() implies #[trigger] bytes.skip(at + 1)[i]
        != 44 by {
        let j = at + 1 + i;
        if j < at + middle.len() {
            assert(bytes[j] == middle.skip(1)[i]);
        } else if j < bytes.len() - 1 {
            assert(bytes[j] == a.1[j - at - middle.len()]);
        } else {
            assert(bytes[j] == 125);
        }
    }
    assert(bytes[at] == middle[0]);
    lemma_last_comma(bytes, b, at);
    assert(a.0 =~= bytes.subrange(head.len() as int, at));
    assert(b.0 =~= bytes.subrange(head.len() as int, at));
    assert(a.1 =~= bytes.subrange(at + middle.len(), bytes.len() - 1));
    assert(b.1 =~= bytes.subrange(at + middle.len(), bytes.len() - 1));
}

/// Writes an allowance as a JSON object. What is written parses back.
pub fn write_allowance(allowance: &Allowance) -> (res: Result<Vec<u8>, StdError>)
    ensures
        res is Ok,
        res->Ok_0@ == allowance_json(allowance@),
        res->Ok_0@.len() > 0,
        allowance_parsed(res->Ok_0@) == parses_to(allowance@),
{
    let mut balance = match write_balance(&allowance.balance) {
        Ok(balance) => balance,
        Err(e) => {
            return Err(e);
        },
    };
    let mut expires = match write_expiration(allowance.expires) {
        Ok(expires) => expires,
        Err(e) => {
            return Err(e);
        },
    };
    let ghost parts = (balance@, expires@);
    let mut res = text_bytes("{\"balance\":");
    res.append(&mut balance);
    let mut middle = text_bytes(",\"expires\":");
    res.append(&mut middle);
    res.append(&mut expires);
    let mut end = text_bytes("}");
    res.append(&mut end);
    proof {
        lemma_allowance_literals();
        assert(is_allowance_object(res@, parts));
        let found = choose|parts: (Seq<u8>, Seq<u8>)| #[trigger] is_allowance_object(res@, parts);
        lemma_parts_unique(res@, parts, found);
    }
    Ok(res)
}

/// What a parsed allowance stands for.
pub open spec fn allowance_result(res: Result<Allowance, StdError>) -> Result<
    AllowanceView,
    StdError,
> {
    match res {
        Ok(allowance) => Ok(allowance@),
        Err(e) => Err(e),
    }
}

/// Takes an object apart into the bytes of a balance and of an expiration.
fn allowance_parts(bytes: &Vec<u8>) -> (res: Option<(Vec<u8>, Vec<u8>)>)
    ensures
        match res {
            Some((balance, expires)) => is_allowance_object(bytes@, (balance@, expires@)),
            None => forall|parts: (Seq<u8>, Seq<u8>)|
                !#[trigger] is_allowance_object(bytes@, parts),
        },
{
    let head = text_bytes("{\"balance\":");
    let middle = text_bytes(",\"expires\":");
    let end = text_bytes("}");
    proof {
        lemma_allowance_literals();
    }
    // The last comma stands in front of the expiration.
    let mut next: usize = bytes.len();
    while next > 0 && bytes[next - 1] != 44
        invariant
            next <= bytes@.len(),
            forall|i: int| next <= i < bytes@.len() ==> bytes@[i] != 44,
        decreases next,
    {
        next = next - 1;
    }
    if next == 0 {
        proof {
            assert forall|parts: (Seq<u8>, Seq<u8>)|
                !#[trigger] is_allowance_object(bytes@, parts) by {
                let object = allowance_object(parts.0, parts.1);
                assert(object[(head@.len() + parts.0.len()) as int] == middle@[0]);
            }
        }
        return None;
    }
    let cut = next - 1;
    let last = bytes.len() - 1;
    proof {
        assert forall|parts: (Seq<u8>, Seq<u8>)| #[trigger]
            is_allowance_object(bytes@, parts) implies {
            &&& head@.len() <= cut
            &&& cut + middle@.len() <= last
            &&& bytes@.subrange(0, head@.len() as int) == head@
            &&& bytes@.subrange(cut as int, cut + middle@.len()) == middle@
            &&& bytes@.subrange(last as int, last + 1) == end@
        } by {
            let tail = bytes@.skip(cut + 1);
            assert forall|i: int| 0 <= i < tail.len() implies #[trigger] tail[i] != 44 by {
                assert(bytes@[cut + 1 + i] != 44);
            }
            lemma_last_comma(bytes@, parts, cut as int);
            assert(bytes@.subrange(0, head@.len() as int) =~= head@);
            assert(bytes@.subrange(cut as int, cut + middle@.len()) =~= middle@);
            assert(bytes@.subrange(last as int, last + 1) =~= end@);
        }
    }
    if !(head.len() <= cut && middle.len() <= last - cut && has_at(bytes, 0, &head) && has_at(
        bytes,
        cut,
        &middle,
    ) && has_at(bytes, last, &end)) {
        return None;
    }
    let from = cut + middle.len();
    let balance = slice_to_vec(slice_subrange(bytes.as_slice(), head.len(), cut));
    let expires = slice_to_vec(slice_subrange(bytes.as_slice(), from, last));
    proof {
        let object = allowance_object(balance@, expires@);
        assert(bytes@.subrange(0, head@.len() as int) + balance@ + bytes@.subrange(
            cut as int,
            cut + middle@.len(),
        ) + expires@ + bytes@.subrange(last as int, last + 1) =~= bytes@);
        assert(object == bytes@);
        assert(comma_free(expires@));
    }
    Some((balance, expires))
}

/// Reads an allowance.
pub fn parse_allowance(bytes: &Vec<u8>) -> (res: Result<Allowance, StdError>)
    ensures
        allowance_result(res) == allowance_parsed(bytes@),
{
    match allowance_parts(bytes) {
        None => Err(
            parse_err(
                "cw1_subkeys::state::Allowance",
                "not an object of a balance and an expiration",
            ),
        ),
        Some((balance, expires)) => {
            proof {
                let parts = (balance@, expires@);
                let found = choose|parts: (Seq<u8>, Seq<u8>)| #[trigger]
                    is_allowance_object(bytes@, parts);
                lemma_parts_unique(bytes@, parts, found);
            }
            match parse_balance(&balance) {
                Err(e) => Err(e),
                Ok(balance) => match parse_expiration(&expires) {
                    Err(e) => Err(e),
                    Ok(expires) => Ok(Allowance { balance, expires }),
                },
            }
        },
    }
}

} // verus!
