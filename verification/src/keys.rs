//! The entries of the contract do not share keys.

use vstd::prelude::*;
use vstd::utf8::{encode_utf8, encode_utf8_decode_utf8, is_ascii_chars_encode_utf8};

use crate::admin::{admin_list_key, version_key};
use crate::state::{
    allowance_key, allowance_namespace, lemma_names_fit, permissions_key, permissions_namespace,
};

verus! {

/// A namespace in front of two keys keeps them apart.
proof fn lemma_same_prefix(prefix: Seq<u8>, a: Seq<u8>, b: Seq<u8>)
    requires
        prefix + a == prefix + b,
    ensures
        a == b,
{
    assert((prefix + a).subrange(prefix.len() as int, (prefix + a).len() as int) =~= a);
    assert((prefix + b).subrange(prefix.len() as int, (prefix + b).len() as int) =~= b);
}

/// Different accounts have different entries.
pub proof fn accounts_apart(a: Seq<char>, b: Seq<char>)
    requires
        a != b,
    ensures
        allowance_key(a) != allowance_key(b),
        permissions_key(a) != permissions_key(b),
{
    encode_utf8_decode_utf8(a);
    encode_utf8_decode_utf8(b);
    if allowance_key(a) == allowance_key(b) {
        lemma_same_prefix(allowance_namespace(), encode_utf8(a), encode_utf8(b));
    }
    if permissions_key(a) == permissions_key(b) {
        lemma_same_prefix(permissions_namespace(), encode_utf8(a), encode_utf8(b));
    }
}

/// Allowances, permissions, the admins and the version are different entries.
pub proof fn entries_apart(a: Seq<char>, b: Seq<char>)
    ensures
        allowance_key(a) != permissions_key(b),
        allowance_key(a) != admin_list_key(),
        allowance_key(a) != version_key(),
        permissions_key(b) != admin_list_key(),
        permissions_key(b) != version_key(),
        admin_list_key() != version_key(),
{
    reveal_strlit("admin_list");
    reveal_strlit("contract_info");
    lemma_names_fit();
    is_ascii_chars_encode_utf8("admin_list"@);
    is_ascii_chars_encode_utf8("contract_info"@);
    assert(allowance_key(a)[0] == 0 && allowance_key(a)[1] == 10);
    assert(permissions_key(b)[0] == 0 && permissions_key(b)[1] == 11);
    assert("admin_list"@[0] == 'a');
    assert("contract_info"@[0] == 'c');
    assert(admin_list_key()[0] == 'a' as u8);
    assert(version_key()[0] == 'c' as u8);
}

} // verus!
