//! Pages of a storage: the first keys of a namespace above a given one.

use cosmwasm_std::StdError;
use vstd::prelude::*;
use vstd::utf8::{
    decode_utf8, decode_utf8_encode_utf8, encode_utf8, encode_utf8_decode_utf8, valid_utf8,
};

use crate::text::{key_less, key_less_total, key_less_transitive};

verus! {

/// What a storage holds: bytes under keys.
pub type Storage = Map<Seq<u8>, Seq<u8>>;

/// Whether a key is above the place where a page starts.
pub open spec fn above(start: Option<Seq<u8>>, key: Seq<u8>) -> bool {
    match start {
        Some(s) => key_less(s, key),
        None => true,
    }
}

/// Where to read on after some keys.
pub open spec fn resume(start: Option<Seq<u8>>, keys: Seq<Seq<u8>>) -> Option<Seq<u8>> {
    if keys.len() > 0 {
        Some(keys.last())
    } else {
        start
    }
}

/// Whether a storage has an entry in a namespace, above the start of a page.
pub open spec fn listed(
    storage: Storage,
    namespace: Seq<u8>,
    start: Option<Seq<u8>>,
    key: Seq<u8>,
) -> bool {
    storage.contains_key(namespace + key) && above(start, key)
}

/// Whether a key is the least one listed.
pub open spec fn is_next(
    storage: Storage,
    namespace: Seq<u8>,
    start: Option<Seq<u8>>,
    key: Seq<u8>,
) -> bool {
    &&& listed(storage, namespace, start, key)
    &&& forall|other: Seq<u8>|
        #[trigger] listed(storage, namespace, start, other) ==> !key_less(other, key)
}

/// Whether keys are the first `limit` listed ones, or all of them if there are
/// fewer, in ascending order.
pub open spec fn is_page(
    storage: Storage,
    namespace: Seq<u8>,
    start: Option<Seq<u8>>,
    limit: nat,
    keys: Seq<Seq<u8>>,
) -> bool {
    &&& keys.len() <= limit
    &&& forall|i: int|
        0 <= i < keys.len() ==> listed(storage, namespace, start, #[trigger] keys[i])
    &&& forall|i: int, j: int|
        0 <= i < j < keys.len() ==> key_less(#[trigger] keys[i], #[trigger] keys[j])
    &&& forall|key: Seq<u8>| #[trigger]
        listed(storage, namespace, start, key) ==> keys.contains(key) || (keys.len() == limit
            && forall|i: int| 0 <= i < keys.len() ==> key_less(#[trigger] keys[i], key))
}

/// What keys decode to, one after the other, or the error of the first that does
/// not decode.
pub open spec fn collected<V>(
    decode: spec_fn(Seq<u8>) -> Result<V, StdError>,
    keys: Seq<Seq<u8>>,
) -> Result<Seq<V>, StdError>
    decreases keys.len(),
{
    if keys.len() == 0 {
        Ok(Seq::empty())
    } else {
        match collected(decode, keys.drop_last()) {
            Err(e) => Err(e),
            Ok(values) => match decode(keys.last()) {
                Err(e) => Err(e),
                Ok(value) => Ok(values.push(value)),
            },
        }
    }
}

/// Whether reading a page gives a result: what its keys decode to.
pub open spec fn reads<V>(
    storage: Storage,
    namespace: Seq<u8>,
    start: Option<Seq<u8>>,
    limit: nat,
    decode: spec_fn(Seq<u8>) -> Result<V, StdError>,
    res: Result<Seq<V>, StdError>,
) -> bool {
    exists|keys: Seq<Seq<u8>>| #[trigger]
        is_page(storage, namespace, start, limit, keys) && collected(decode, keys) == res
}

/// Once a key does not decode, those after it change nothing.
pub proof fn lemma_collecting_stops<V>(
    decode: spec_fn(Seq<u8>) -> Result<V, StdError>,
    keys: Seq<Seq<u8>>,
    n: int,
)
    requires
        0 <= n <= keys.len(),
        collected(decode, keys.take(n)) is Err,
    ensures
        collected(decode, keys) == collected(decode, keys.take(n)),
    decreases keys.len(),
{
    if n < keys.len() {
        assert(keys.drop_last().take(n) =~= keys.take(n));
        lemma_collecting_stops(decode, keys.drop_last(), n);
    } else {
        assert(keys.take(n) =~= keys);
    }
}

/// Keys that were collected decode one by one.
proof fn lemma_collected<V>(
    decode: spec_fn(Seq<u8>) -> Result<V, StdError>,
    keys: Seq<Seq<u8>>,
    values: Seq<V>,
)
    requires
        collected(decode, keys) == Ok::<Seq<V>, StdError>(values),
    ensures
        keys.len() == values.len(),
        forall|i: int|
            0 <= i < keys.len() ==> decode(#[trigger] keys[i]) == Ok::<V, StdError>(values[i]),
    decreases keys.len(),
{
    if keys.len() > 0 {
        let few = keys.drop_last();
        lemma_collected(decode, few, collected(decode, few)->Ok_0);
        assert forall|i: int| 0 <= i < keys.len() implies decode(#[trigger] keys[i]) == Ok::<
            V,
            StdError,
        >(values[i]) by {
            if i < keys.len() - 1 {
                assert(few[i] == keys[i]);
            }
        }
    }
}

/// Keys of two pages that were collected are collected together.
proof fn lemma_collected_both<V>(
    decode: spec_fn(Seq<u8>) -> Result<V, StdError>,
    a: Seq<Seq<u8>>,
    b: Seq<Seq<u8>>,
)
    requires
        collected(decode, a) is Ok,
        collected(decode, b) is Ok,
    ensures
        collected(decode, a + b) == Ok::<Seq<V>, StdError>(
            collected(decode, a)->Ok_0 + collected(decode, b)->Ok_0,
        ),
    decreases b.len(),
{
    if b.len() > 0 {
        lemma_collected_both(decode, a, b.drop_last());
        assert((a + b).drop_last() =~= a + b.drop_last());
    }
    let (x, y) = (collected(decode, a)->Ok_0, collected(decode, b)->Ok_0);
    if b.len() > 0 {
        assert(x + y =~= (x + collected(decode, b.drop_last())->Ok_0).push(y.last()));
    } else {
        assert(a + b =~= a);
        assert(x + y =~= x);
    }
}

/// There is one page only: two pages with the same start and limit are equal.
pub proof fn page_unique(
    storage: Storage,
    namespace: Seq<u8>,
    start: Option<Seq<u8>>,
    limit: nat,
    a: Seq<Seq<u8>>,
    b: Seq<Seq<u8>>,
)
    requires
        is_page(storage, namespace, start, limit, a),
        is_page(storage, namespace, start, limit, b),
    ensures
        a == b,
{
    lemma_page_prefix(storage, namespace, start, limit, limit, a, b, a.len());
    lemma_page_prefix(storage, namespace, start, limit, limit, b, a, b.len());
    assert(a =~= b);
}

/// The first `n` keys of one page stand in another with the same start at the
/// same places, as far as its limit goes.
proof fn lemma_page_prefix(
    storage: Storage,
    namespace: Seq<u8>,
    start: Option<Seq<u8>>,
    limit_a: nat,
    limit_b: nat,
    a: Seq<Seq<u8>>,
    b: Seq<Seq<u8>>,
    n: nat,
)
    requires
        is_page(storage, namespace, start, limit_a, a),
        is_page(storage, namespace, start, limit_b, b),
        n <= a.len(),
        n <= limit_b,
    ensures
        n <= b.len(),
        forall|i: int| 0 <= i < n ==> a[i] == b[i],
    decreases n,
{
    if n > 0 {
        let m = (n - 1) as nat;
        lemma_page_prefix(storage, namespace, start, limit_a, limit_b, a, b, m);
        let key = a[m as int];
        assert(listed(storage, namespace, start, key));
        if b.contains(key) {
            let i = choose|i: int| 0 <= i < b.len() && b[i] == key;
            if i < m {
                key_less_total(a[i], key);
            }
        }
        assert(m < b.len());
        if b[m as int] != key {
            if b.contains(key) {
                let i = choose|i: int| 0 <= i < b.len() && b[i] == key;
                assert(key_less(b[m as int], b[i]));
            } else {
                assert(key_less(b[m as int], key));
            }
            // b[m] is listed and below a[m], so it is among the first m keys of a,
            // which are those of b.
            let low = b[m as int];
            assert(listed(storage, namespace, start, low));
            key_less_total(low, key);
            assert(a.contains(low)) by {
                if !a.contains(low) {
                    assert(key_less(a[m as int], low));
                }
            }
            let j = choose|j: int| 0 <= j < a.len() && a[j] == low;
            if j < m {
                key_less_total(b[j], low);
            } else if j > m {
                assert(key_less(a[m as int], a[j]));
            }
        }
    }
}

/// Reading a page gives one result only.
pub proof fn reads_unique<V>(
    storage: Storage,
    namespace: Seq<u8>,
    start: Option<Seq<u8>>,
    limit: nat,
    decode: spec_fn(Seq<u8>) -> Result<V, StdError>,
    a: Result<Seq<V>, StdError>,
    b: Result<Seq<V>, StdError>,
)
    requires
        reads(storage, namespace, start, limit, decode, a),
        reads(storage, namespace, start, limit, decode, b),
    ensures
        a == b,
{
    let x = choose|keys: Seq<Seq<u8>>| #[trigger]
        is_page(storage, namespace, start, limit, keys) && collected(decode, keys) == a;
    let y = choose|keys: Seq<Seq<u8>>| #[trigger]
        is_page(storage, namespace, start, limit, keys) && collected(decode, keys) == b;
    page_unique(storage, namespace, start, limit, x, y);
}

/// A full page, and the page that starts after its last key, make up one larger
/// page: who reads on from the last key misses nothing and sees nothing twice.
pub proof fn pages_join(
    storage: Storage,
    namespace: Seq<u8>,
    start: Option<Seq<u8>>,
    limit: nat,
    more: nat,
    first: Seq<Seq<u8>>,
    second: Seq<Seq<u8>>,
)
    requires
        is_page(storage, namespace, start, limit, first),
        first.len() == limit,
        limit > 0,
        is_page(storage, namespace, Some(first.last()), more, second),
    ensures
        is_page(storage, namespace, start, limit + more, first + second),
{
    let both = first + second;
    let next = Some(first.last());
    assert(listed(storage, namespace, start, first[limit - 1]));
    assert forall|i: int| 0 <= i < both.len() implies listed(
        storage,
        namespace,
        start,
        #[trigger] both[i],
    ) by {
        if i >= limit {
            let key = second[i - limit];
            assert(listed(storage, namespace, next, key));
            if start is Some {
                key_less_transitive(start->Some_0, first.last(), key);
            }
        }
    }
    assert forall|i: int, j: int| 0 <= i < j < both.len() implies key_less(
        #[trigger] both[i],
        #[trigger] both[j],
    ) by {
        if i < limit && j >= limit {
            let key = second[j - limit];
            assert(listed(storage, namespace, next, key));
            if i < limit - 1 {
                assert(key_less(first[i], first[limit - 1]));
                key_less_transitive(first[i], first.last(), key);
            }
        }
    }
    assert forall|key: Seq<u8>| #[trigger]
        listed(storage, namespace, start, key) implies both.contains(key) || (both.len() == limit
        + more && forall|i: int| 0 <= i < both.len() ==> key_less(#[trigger] both[i], key)) by {
        if first.contains(key) {
            let i = choose|i: int| 0 <= i < first.len() && first[i] == key;
            assert(both[i] == key);
        } else {
            assert(key_less(first[limit - 1], key));
            assert(listed(storage, namespace, next, key));
            if second.contains(key) {
                let i = choose|i: int| 0 <= i < second.len() && second[i] == key;
                assert(both[limit + i] == key);
            } else {
                assert forall|i: int| 0 <= i < both.len() implies key_less(
                    #[trigger] both[i],
                    key,
                ) by {
                    if i >= limit {
                        assert(key_less(second[i - limit], key));
                    } else {
                        assert(key_less(first[i], key));
                    }
                }
            }
        }
    }
}

/// The least key above the last one of a full page extends it.
pub proof fn lemma_extend_page(
    storage: Storage,
    namespace: Seq<u8>,
    start: Option<Seq<u8>>,
    keys: Seq<Seq<u8>>,
    key: Seq<u8>,
)
    requires
        is_page(storage, namespace, start, keys.len(), keys),
        is_next(storage, namespace, resume(start, keys), key),
    ensures
        is_page(storage, namespace, start, keys.len() + 1, keys.push(key)),
{
    let next = resume(start, keys);
    let one = seq![key];
    assert(is_page(storage, namespace, next, 1, one)) by {
        assert forall|other: Seq<u8>| #[trigger]
            listed(storage, namespace, next, other) implies one.contains(other) || (one.len() == 1
            && forall|i: int| 0 <= i < one.len() ==> key_less(#[trigger] one[i], other)) by {
            key_less_total(other, key);
            if other == key {
                assert(one[0] == other);
            }
        }
    }
    if keys.len() > 0 {
        pages_join(storage, namespace, start, keys.len(), 1, keys, one);
        assert(keys.push(key) =~= keys + one);
    } else {
        assert(keys.push(key) =~= one);
    }
}

/// A full page after which nothing is listed is a page for any larger limit.
pub proof fn lemma_end_page(
    storage: Storage,
    namespace: Seq<u8>,
    start: Option<Seq<u8>>,
    limit: nat,
    keys: Seq<Seq<u8>>,
)
    requires
        is_page(storage, namespace, start, keys.len(), keys),
        keys.len() <= limit,
        forall|key: Seq<u8>|
            !#[trigger] listed(storage, namespace, resume(start, keys), key),
    ensures
        is_page(storage, namespace, start, limit, keys),
{
    assert forall|key: Seq<u8>| #[trigger]
        listed(storage, namespace, start, key) implies keys.contains(key) by {
        if !keys.contains(key) {
            if keys.len() > 0 {
                assert(key_less(keys[keys.len() - 1], key));
            }
            assert(listed(storage, namespace, resume(start, keys), key));
        }
    }
}

/// Whether accounts ascend, so that none is there twice, come after the start,
/// and have entries.
pub open spec fn accounts_listed(
    storage: Storage,
    namespace: Seq<u8>,
    start: Option<Seq<u8>>,
    accounts: Seq<Seq<char>>,
) -> bool {
    &&& forall|i: int|
        0 <= i < accounts.len() ==> listed(
            storage,
            namespace,
            start,
            encode_utf8(#[trigger] accounts[i]),
        )
    &&& forall|i: int, j: int|
        0 <= i < j < accounts.len() ==> key_less(
            encode_utf8(#[trigger] accounts[i]),
            encode_utf8(#[trigger] accounts[j]),
        )
}

/// Whether no account that has an entry and comes after the start is left out.
pub open spec fn accounts_complete(
    storage: Storage,
    namespace: Seq<u8>,
    start: Option<Seq<u8>>,
    accounts: Seq<Seq<char>>,
) -> bool {
    forall|a: Seq<char>|
        listed(storage, namespace, start, #[trigger] encode_utf8(a)) ==> accounts.contains(a)
}

/// Accounts that are listed differ from each other.
pub proof fn listed_accounts_differ(
    storage: Storage,
    namespace: Seq<u8>,
    start: Option<Seq<u8>>,
    accounts: Seq<Seq<char>>,
)
    requires
        accounts_listed(storage, namespace, start, accounts),
    ensures
        accounts.no_duplicates(),
{
    assert forall|i: int, j: int|
        0 <= i < accounts.len() && 0 <= j < accounts.len() && i != j implies accounts[i]
        != accounts[j] by {
        let (x, y) = if i < j {
            (i, j)
        } else {
            (j, i)
        };
        assert(key_less(encode_utf8(accounts[x]), encode_utf8(accounts[y])));
        key_less_total(encode_utf8(accounts[x]), encode_utf8(accounts[y]));
    }
}

/// Whether what a key decodes to names the account whose bytes the key is.
pub open spec fn names_account<V>(
    decode: spec_fn(Seq<u8>) -> Result<V, StdError>,
    account: spec_fn(V) -> Seq<char>,
) -> bool {
    forall|key: Seq<u8>| #[trigger]
        decode(key) is Ok ==> valid_utf8(key) && account(decode(key)->Ok_0) == decode_utf8(key)
}

/// What is read is right, and complete if there was room for more.
pub proof fn reading_lists<V>(
    storage: Storage,
    namespace: Seq<u8>,
    start: Option<Seq<u8>>,
    limit: nat,
    decode: spec_fn(Seq<u8>) -> Result<V, StdError>,
    account: spec_fn(V) -> Seq<char>,
    page: Seq<V>,
)
    requires
        reads(storage, namespace, start, limit, decode, Ok(page)),
        names_account(decode, account),
    ensures
        page.len() <= limit,
        accounts_listed(storage, namespace, start, page.map_values(account)),
        page.len() < limit ==> accounts_complete(
            storage,
            namespace,
            start,
            page.map_values(account),
        ),
        forall|i: int|
            0 <= i < page.len() ==> decode(encode_utf8(account(#[trigger] page[i]))) == Ok::<
                V,
                StdError,
            >(page[i]),
{
    let keys = lemma_page_keys(storage, namespace, start, limit, decode, page);
    let accounts = page.map_values(account);
    assert forall|i: int| 0 <= i < page.len() implies #[trigger] encode_utf8(accounts[i])
        == keys[i] by {
        assert(decode(keys[i]) is Ok);
        decode_utf8_encode_utf8(keys[i]);
    }
    assert forall|i: int| 0 <= i < accounts.len() implies listed(
        storage,
        namespace,
        start,
        encode_utf8(#[trigger] accounts[i]),
    ) by {
        assert(listed(storage, namespace, start, keys[i]));
    }
    assert forall|i: int, j: int| 0 <= i < j < accounts.len() implies key_less(
        encode_utf8(#[trigger] accounts[i]),
        encode_utf8(#[trigger] accounts[j]),
    ) by {
        assert(key_less(keys[i], keys[j]));
    }
    assert forall|i: int| 0 <= i < page.len() implies decode(
        encode_utf8(account(#[trigger] page[i])),
    ) == Ok::<V, StdError>(page[i]) by {
        assert(accounts[i] == account(page[i]));
        assert(encode_utf8(accounts[i]) == keys[i]);
    }
    if page.len() < limit {
        assert forall|a: Seq<char>|
            listed(storage, namespace, start, #[trigger] encode_utf8(a)) implies accounts.contains(
            a,
        ) by {
            let i = choose|i: int| 0 <= i < keys.len() && keys[i] == encode_utf8(a);
            assert(encode_utf8(accounts[i]) == keys[i]);
            encode_utf8_decode_utf8(a);
            encode_utf8_decode_utf8(accounts[i]);
        }
    }
}

/// What is read skips nothing: an account with an entry after the start is there,
/// or the page is full and the account comes after all that are.
pub proof fn reading_skips_nothing<V>(
    storage: Storage,
    namespace: Seq<u8>,
    start: Option<Seq<u8>>,
    limit: nat,
    decode: spec_fn(Seq<u8>) -> Result<V, StdError>,
    account: spec_fn(V) -> Seq<char>,
    page: Seq<V>,
    a: Seq<char>,
)
    requires
        reads(storage, namespace, start, limit, decode, Ok(page)),
        names_account(decode, account),
        listed(storage, namespace, start, encode_utf8(a)),
    ensures
        (exists|i: int| 0 <= i < page.len() && account(#[trigger] page[i]) == a) || (page.len()
            == limit && forall|i: int|
            0 <= i < page.len() ==> key_less(
                encode_utf8(account(#[trigger] page[i])),
                encode_utf8(a),
            )),
{
    let keys = lemma_page_keys(storage, namespace, start, limit, decode, page);
    assert forall|i: int| 0 <= i < page.len() implies encode_utf8(account(#[trigger] page[i]))
        == keys[i] by {
        assert(decode(keys[i]) is Ok);
        decode_utf8_encode_utf8(keys[i]);
    }
    if keys.contains(encode_utf8(a)) {
        let i = choose|i: int| 0 <= i < keys.len() && keys[i] == encode_utf8(a);
        encode_utf8_decode_utf8(a);
        encode_utf8_decode_utf8(account(page[i]));
        assert(account(page[i]) == a);
    } else {
        assert forall|i: int| 0 <= i < page.len() implies key_less(
            encode_utf8(account(#[trigger] page[i])),
            encode_utf8(a),
        ) by {
            assert(key_less(keys[i], encode_utf8(a)));
        }
    }
}

/// Reading fails exactly where a key of the page does not decode, with the error of
/// the first such key.
pub proof fn reading_fails_at_the_first<V>(
    storage: Storage,
    namespace: Seq<u8>,
    start: Option<Seq<u8>>,
    limit: nat,
    decode: spec_fn(Seq<u8>) -> Result<V, StdError>,
    keys: Seq<Seq<u8>>,
    res: Result<Seq<V>, StdError>,
)
    requires
        reads(storage, namespace, start, limit, decode, res),
        is_page(storage, namespace, start, limit, keys),
    ensures
        (forall|i: int| 0 <= i < keys.len() ==> decode(#[trigger] keys[i]) is Ok) ==> res is Ok,
        forall|i: int|
            0 <= i < keys.len() && decode(#[trigger] keys[i]) is Err && (forall|j: int|
                0 <= j < i ==> decode(#[trigger] keys[j]) is Ok) ==> res is Err && res->Err_0
                == decode(keys[i])->Err_0,
{
    let own = choose|keys: Seq<Seq<u8>>| #[trigger]
        is_page(storage, namespace, start, limit, keys) && collected(decode, keys) == res;
    page_unique(storage, namespace, start, limit, own, keys);
    if forall|i: int| 0 <= i < keys.len() ==> decode(#[trigger] keys[i]) is Ok {
        lemma_collecting_succeeds(decode, keys);
    }
    assert forall|i: int|
        0 <= i < keys.len() && decode(#[trigger] keys[i]) is Err && (forall|j: int|
            0 <= j < i ==> decode(#[trigger] keys[j]) is Ok) implies res is Err && res->Err_0
        == decode(keys[i])->Err_0 by {
        let few = keys.take(i);
        assert forall|j: int| 0 <= j < few.len() implies decode(#[trigger] few[j]) is Ok by {
            assert(few[j] == keys[j]);
        }
        lemma_collecting_succeeds(decode, few);
        assert(keys.take(i + 1).drop_last() =~= few);
        assert(keys.take(i + 1).last() == keys[i]);
        lemma_collecting_stops(decode, keys, i + 1);
    }
}

/// Keys that all decode are collected.
proof fn lemma_collecting_succeeds<V>(
    decode: spec_fn(Seq<u8>) -> Result<V, StdError>,
    keys: Seq<Seq<u8>>,
)
    requires
        forall|i: int| 0 <= i < keys.len() ==> decode(#[trigger] keys[i]) is Ok,
    ensures
        collected(decode, keys) is Ok,
    decreases keys.len(),
{
    if keys.len() > 0 {
        let few = keys.drop_last();
        assert forall|i: int| 0 <= i < few.len() implies decode(#[trigger] few[i]) is Ok by {
            assert(few[i] == keys[i]);
        }
        lemma_collecting_succeeds(decode, few);
        assert(decode(keys[keys.len() - 1]) is Ok);
    }
}

/// The keys of a page that was read.
proof fn lemma_page_keys<V>(
    storage: Storage,
    namespace: Seq<u8>,
    start: Option<Seq<u8>>,
    limit: nat,
    decode: spec_fn(Seq<u8>) -> Result<V, StdError>,
    page: Seq<V>,
) -> (keys: Seq<Seq<u8>>)
    requires
        reads(storage, namespace, start, limit, decode, Ok(page)),
    ensures
        is_page(storage, namespace, start, limit, keys),
        collected(decode, keys) == Ok::<Seq<V>, StdError>(page),
        keys.len() == page.len(),
        forall|i: int|
            0 <= i < keys.len() ==> decode(#[trigger] keys[i]) == Ok::<V, StdError>(page[i]),
{
    let keys = choose|keys: Seq<Seq<u8>>| #[trigger]
        is_page(storage, namespace, start, limit, keys) && collected(decode, keys) == Ok::<
            Seq<V>,
            StdError,
        >(page);
    lemma_collected(decode, keys, page);
    keys
}

/// A page that is not empty, and what is read from its last account on, make up
/// one larger page: who reads on misses nothing and sees nothing twice.
pub proof fn reading_on<V>(
    storage: Storage,
    namespace: Seq<u8>,
    start: Option<Seq<u8>>,
    limit: nat,
    more: nat,
    decode: spec_fn(Seq<u8>) -> Result<V, StdError>,
    account: spec_fn(V) -> Seq<char>,
    first: Seq<V>,
    second: Seq<V>,
)
    requires
        names_account(decode, account),
        reads(storage, namespace, start, limit, decode, Ok(first)),
        first.len() > 0,
        reads(
            storage,
            namespace,
            Some(encode_utf8(account(first.last()))),
            more,
            decode,
            Ok(second),
        ),
    ensures
        reads(storage, namespace, start, first.len() + more, decode, Ok(first + second)),
{
    let a = lemma_page_keys(storage, namespace, start, limit, decode, first);
    assert(decode(a[a.len() - 1]) is Ok);
    decode_utf8_encode_utf8(a.last());
    let b = lemma_page_keys(storage, namespace, Some(a.last()), more, decode, second);
    assert(is_page(storage, namespace, start, a.len(), a));
    pages_join(storage, namespace, start, a.len(), more, a, b);
    lemma_collected_both(decode, a, b);
}

/// Whether pages were read one after the other, each from the last account of
/// the one before, until one with room for more was empty. The limits may differ.
pub open spec fn walked<V>(
    storage: Storage,
    namespace: Seq<u8>,
    decode: spec_fn(Seq<u8>) -> Result<V, StdError>,
    account: spec_fn(V) -> Seq<char>,
    starts: Seq<Option<Seq<u8>>>,
    limits: Seq<nat>,
    pages: Seq<Seq<V>>,
) -> bool {
    &&& 0 < pages.len() == starts.len() == limits.len()
    &&& forall|i: int|
        0 <= i < pages.len() ==> reads(
            storage,
            namespace,
            starts[i],
            limits[i],
            decode,
            Ok(#[trigger] pages[i]),
        )
    &&& forall|i: int|
        0 <= i < pages.len() - 1 ==> (#[trigger] pages[i]).len() > 0 && starts[i + 1] == Some(
            encode_utf8(account(pages[i].last())),
        )
    &&& pages.last().len() == 0
    &&& limits.last() > 0
}

/// Who reads on until an empty page has read one page with room for more,
/// whatever the limits.
pub proof fn walking_reads_all<V>(
    storage: Storage,
    namespace: Seq<u8>,
    decode: spec_fn(Seq<u8>) -> Result<V, StdError>,
    account: spec_fn(V) -> Seq<char>,
    starts: Seq<Option<Seq<u8>>>,
    limits: Seq<nat>,
    pages: Seq<Seq<V>>,
)
    requires
        names_account(decode, account),
        walked(storage, namespace, decode, account, starts, limits, pages),
    ensures
        reads(
            storage,
            namespace,
            starts[0],
            pages.flatten().len() + 1,
            decode,
            Ok(pages.flatten()),
        ),
    decreases pages.len(),
{
    let (start, limit, page, rest) = (starts[0], limits[0], pages[0], pages.drop_first());
    assert(reads(storage, namespace, starts[0], limits[0], decode, Ok(pages[0])));
    assert(pages.flatten() == page + rest.flatten());
    if pages.len() == 1 {
        let keys = lemma_page_keys(storage, namespace, start, limit, decode, page);
        assert(pages.flatten() =~= page);
        assert(is_page(storage, namespace, start, 1, keys));
    } else {
        let (later, more) = (starts.drop_first(), limits.drop_first());
        assert forall|i: int| 0 <= i < rest.len() implies reads(
            storage,
            namespace,
            later[i],
            more[i],
            decode,
            Ok(#[trigger] rest[i]),
        ) by {
            assert(rest[i] == pages[i + 1]);
        }
        assert forall|i: int| 0 <= i < rest.len() - 1 implies (#[trigger] rest[i]).len() > 0
            && later[i + 1] == Some(encode_utf8(account(rest[i].last()))) by {
            assert(rest[i] == pages[i + 1]);
        }
        walking_reads_all(storage, namespace, decode, account, later, more, rest);
        reading_on(
            storage,
            namespace,
            start,
            limit,
            rest.flatten().len() + 1,
            decode,
            account,
            page,
            rest.flatten(),
        );
    }
}

} // verus!
