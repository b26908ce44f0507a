//! Positional state keys for sequence containers.
//!
//! A sequence container serializes its element at position `i` under the
//! key `"mod-<i>"`.  This module renders that key and proves the scheme
//! injective, which is what makes the keys of a sequence container's
//! state node pairwise distinct.

use vstd::prelude::*;
use vstd::string::StringExecFns;

verus! {

/// The decimal digit character for `d` (meaningful for `d < 10`).
pub open spec fn digit_char(d: nat) -> char {
    if d == 0 {
        '0'
    } else if d == 1 {
        '1'
    } else if d == 2 {
        '2'
    } else if d == 3 {
        '3'
    } else if d == 4 {
        '4'
    } else if d == 5 {
        '5'
    } else if d == 6 {
        '6'
    } else if d == 7 {
        '7'
    } else if d == 8 {
        '8'
    } else {
        '9'
    }
}

/// The decimal rendering of `n`, most significant digit first, without
/// leading zeros (`0` renders as `"0"`).
pub open spec fn dec_str(n: nat) -> Seq<char>
    decreases n,
{
    if n < 10 {
        seq![digit_char(n)]
    } else {
        dec_str(n / 10).push(digit_char(n % 10))
    }
}

/// The state key of the sequence element at position `i`.
pub open spec fn seq_key(i: nat) -> Seq<char> {
    "mod-"@ + dec_str(i)
}

pub proof fn lemma_dec_str_len(n: nat)
    ensures
        dec_str(n).len() >= 1,
        n >= 10 ==> dec_str(n).len() >= 2,
    decreases n,
{
    if n >= 10 {
        lemma_dec_str_len(n / 10);
    }
}

/// Distinct numbers render to distinct decimal strings.
pub proof fn lemma_dec_str_injective(a: nat, b: nat)
    requires
        dec_str(a) == dec_str(b),
    ensures
        a == b,
    decreases a,
{
    lemma_dec_str_len(a);
    lemma_dec_str_len(b);
    if a < 10 && b < 10 {
        assert(dec_str(a) == seq![digit_char(a)]);
        assert(dec_str(b) == seq![digit_char(b)]);
        assert(seq![digit_char(a)][0] == seq![digit_char(b)][0]);
        assert(digit_char(a) == digit_char(b));
        assert(a == b);
    } else if a < 10 {
        assert(dec_str(a).len() == 1);
    } else if b < 10 {
        assert(dec_str(b).len() == 1);
    } else {
        assert(dec_str(a).last() == digit_char(a % 10));
        assert(dec_str(b).last() == digit_char(b % 10));
        assert(a % 10 == b % 10);
        assert(dec_str(a).drop_last() =~= dec_str(a / 10));
        assert(dec_str(b).drop_last() =~= dec_str(b / 10));
        lemma_dec_str_injective(a / 10, b / 10);
        assert(a / 10 == b / 10);
        assert(a == ((a / 10) * 10 + a % 10)) by (nonlinear_arith);
        assert(b == ((b / 10) * 10 + b % 10)) by (nonlinear_arith);
        assert(a == b);
    }
}

/// Distinct positions get distinct state keys.
pub proof fn lemma_seq_key_injective(a: nat, b: nat)
    requires
        seq_key(a) == seq_key(b),
    ensures
        a == b,
{
    let p = "mod-"@;
    assert(seq_key(a).skip(p.len() as int) =~= dec_str(a));
    assert(seq_key(b).skip(p.len() as int) =~= dec_str(b));
    lemma_dec_str_injective(a, b);
}

fn push_dec(n: usize, s: &mut String)
    ensures
        final(s)@ == old(s)@ + dec_str(n as nat),
    decreases n,
{
    let d: &str = match n % 10 {
        0 => "0",
        1 => "1",
        2 => "2",
        3 => "3",
        4 => "4",
        5 => "5",
        6 => "6",
        7 => "7",
        8 => "8",
        _ => "9",
    };
    proof {
        reveal_strlit("0");
        reveal_strlit("1");
        reveal_strlit("2");
        reveal_strlit("3");
        reveal_strlit("4");
        reveal_strlit("5");
        reveal_strlit("6");
        reveal_strlit("7");
        reveal_strlit("8");
        reveal_strlit("9");
        assert(d@ =~= seq![digit_char((n % 10) as nat)]);
    }
    if n >= 10 {
        push_dec(n / 10, s);
    }
    s.append(d);
    proof {
        assert(final(s)@ =~= old(s)@ + dec_str(n as nat));
    }
}

/// Renders the state key `"mod-<i>"` of the sequence element at
/// position `i`.
pub fn index_key(i: usize) -> (s: String)
    ensures
        s@ == seq_key(i as nat),
{
    let mut s = String::from_str("mod-");
    push_dec(i, &mut s);
    s
}

} // verus!
