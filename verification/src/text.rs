//! Text that ends up in event attributes, and the orders of texts and keys.

use vstd::prelude::*;

verus! {

/// The character of a decimal digit.
pub open spec fn digit(d: nat) -> char {
    (48 + d) as char
}

/// A number written in decimal, without leading zeros.
pub open spec fn decimal(n: nat) -> Seq<char>
    decreases n,
{
    if n < 10 {
        seq![digit(n)]
    } else {
        decimal(n / 10).push(digit(n % 10))
    }
}

/// The text of one decimal digit.
fn digit_text(d: u128) -> (res: &'static str)
    requires
        d < 10,
    ensures
        res@ == seq![digit(d as nat)],
{
    proof {
        reveal_strlit("0");
        reveal_strlit("1");
        reveal_strlit("2");
        reveal_strlit("3");
        reveal_strlit("4");
        reveal_strlit("5");
        reveal_strlit("6");
        reveal_strlit("7");
        reveal_strlit("8");
        reveal_strlit("9");
    }
    if d == 0 {
        "0"
    } else if d == 1 {
        "1"
    } else if d == 2 {
        "2"
    } else if d == 3 {
        "3"
    } else if d == 4 {
        "4"
    } else if d == 5 {
        "5"
    } else if d == 6 {
        "6"
    } else if d == 7 {
        "7"
    } else if d == 8 {
        "8"
    } else {
        "9"
    }
}

/// Writes a number in decimal.
pub fn decimal_text(n: u128) -> (res: String)
    ensures
        res@ == decimal(n as nat),
    decreases n,
{
    if n < 10 {
        digit_text(n).to_owned()
    } else {
        let mut res = decimal_text(n / 10);
        res.append(digit_text(n % 10));
        assert(res@ == decimal((n / 10) as nat).push(digit((n % 10) as nat)));
        res
    }
}

/// The text of a truth value.
pub open spec fn truth(b: bool) -> Seq<char> {
    if b {
        "true"@
    } else {
        "false"@
    }
}

/// Writes a truth value.
pub fn truth_text(b: bool) -> (res: &'static str)
    ensures
        res@ == truth(b),
{
    if b {
        "true"
    } else {
        "false"
    }
}

/// Strict lexicographic order: the first place where two sequences differ
/// decides, and a proper prefix comes first.
pub open spec fn lex_less(a: Seq<nat>, b: Seq<nat>) -> bool
    decreases a.len(),
{
    b.len() > 0 && (a.len() == 0 || a[0] < b[0] || (a[0] == b[0] && lex_less(
        a.drop_first(),
        b.drop_first(),
    )))
}

/// The code points of a text.
pub open spec fn code_points(t: Seq<char>) -> Seq<nat> {
    t.map_values(|c: char| c as u32 as nat)
}

/// The order of texts: lexicographic by code points.
pub open spec fn text_less(a: Seq<char>, b: Seq<char>) -> bool {
    lex_less(code_points(a), code_points(b))
}

/// The order of storage keys: lexicographic by bytes.
pub open spec fn key_less(a: Seq<u8>, b: Seq<u8>) -> bool {
    lex_less(a.map_values(|x: u8| x as nat), b.map_values(|x: u8| x as nat))
}

proof fn lemma_lex_less_total(a: Seq<nat>, b: Seq<nat>)
    ensures
        a == b ==> !lex_less(a, b),
        a != b ==> lex_less(a, b) != lex_less(b, a),
    decreases a.len(),
{
    if a.len() > 0 && b.len() > 0 {
        lemma_lex_less_total(a.drop_first(), b.drop_first());
        if a[0] == b[0] {
            assert(a == seq![a[0]] + a.drop_first());
            assert(b == seq![b[0]] + b.drop_first());
        }
    } else if a.len() == 0 && b.len() == 0 {
        assert(a == b);
    }
}

proof fn lemma_lex_less_transitive(a: Seq<nat>, b: Seq<nat>, c: Seq<nat>)
    requires
        lex_less(a, b),
        lex_less(b, c),
    ensures
        lex_less(a, c),
    decreases a.len(),
{
    if a.len() > 0 && a[0] == b[0] && b[0] == c[0] {
        lemma_lex_less_transitive(a.drop_first(), b.drop_first(), c.drop_first());
    }
}

/// Of two texts, exactly one holds: they are equal, the first comes before the
/// second, or the second before the first.
pub proof fn text_less_total(a: Seq<char>, b: Seq<char>)
    ensures
        a == b ==> !text_less(a, b),
        a != b ==> text_less(a, b) != text_less(b, a),
{
    let (x, y) = (code_points(a), code_points(b));
    lemma_lex_less_total(x, y);
    if x == y {
        assert(a.len() == x.len());
        assert forall|i: int| 0 <= i < a.len() implies a[i] == b[i] by {
            assert(x[i] == y[i]);
            vstd::utf8::char_u32_cast(a[i], a[i] as u32);
            vstd::utf8::char_u32_cast(b[i], b[i] as u32);
        }
        assert(a == b);
    }
}

/// The order of texts is transitive.
pub proof fn text_less_transitive(a: Seq<char>, b: Seq<char>, c: Seq<char>)
    requires
        text_less(a, b),
        text_less(b, c),
    ensures
        text_less(a, c),
{
    lemma_lex_less_transitive(code_points(a), code_points(b), code_points(c));
}

/// Of two keys, exactly one holds: they are equal, the first comes before the
/// second, or the second before the first.
pub proof fn key_less_total(a: Seq<u8>, b: Seq<u8>)
    ensures
        a == b ==> !key_less(a, b),
        a != b ==> key_less(a, b) != key_less(b, a),
{
    let x = a.map_values(|x: u8| x as nat);
    let y = b.map_values(|x: u8| x as nat);
    lemma_lex_less_total(x, y);
    if x == y {
        assert(a.len() == x.len());
        assert forall|i: int| 0 <= i < a.len() implies a[i] == b[i] by {
            assert(x[i] == y[i]);
        }
        assert(a == b);
    }
}

/// The order of keys is transitive.
pub proof fn key_less_transitive(a: Seq<u8>, b: Seq<u8>, c: Seq<u8>)
    requires
        key_less(a, b),
        key_less(b, c),
    ensures
        key_less(a, c),
{
    lemma_lex_less_transitive(
        a.map_values(|x: u8| x as nat),
        b.map_values(|x: u8| x as nat),
        c.map_values(|x: u8| x as nat),
    );
}

} // verus!
