//! Decimal rendering of unsigned integers, used everywhere an immediate,
//! register index, label id or byte offset appears in the emitted program
//! text.
//!
//! The rendering loop is the classic "divide, then emit while nonzero"
//! structure; the specification [`dec_str`] pins the result down exactly,
//! including the boundary value `0`, which must render as the single digit
//! `"0"` (the recursion always produces at least one digit).

use vstd::prelude::*;
use vstd::string::StringExecFns;

verus! {

/// The character for the decimal digit `d` (meaningful for `d < 10`).
pub open spec fn digit_char(d: nat) -> char {
    if d == 0 {
        '0'
    } else if d == 1 {
        '1'
    } else if d == 2 {
        '2'
    } else if d == 3 {
        '3'
    } else if d == 4 {
        '4'
    } else if d == 5 {
        '5'
    } else if d == 6 {
        '6'
    } else if d == 7 {
        '7'
    } else if d == 8 {
        '8'
    } else {
        '9'
    }
}

/// The digit value of a character produced by [`digit_char`].
pub open spec fn char_digit(c: char) -> nat {
    if c == '0' {
        0
    } else if c == '1' {
        1
    } else if c == '2' {
        2
    } else if c == '3' {
        3
    } else if c == '4' {
        4
    } else if c == '5' {
        5
    } else if c == '6' {
        6
    } else if c == '7' {
        7
    } else if c == '8' {
        8
    } else {
        9
    }
}

/// The decimal representation of `n`: most significant digit first, no
/// leading zeroes, and at least one digit (`0` is the one-character
/// sequence `"0"`).
pub open spec fn dec_str(n: nat) -> Seq<char>
    decreases n,
{
    if n < 10 {
        seq![digit_char(n)]
    } else {
        dec_str(n / 10) + seq![digit_char(n % 10)]
    }
}

/// The numeric value of a digit sequence, most significant digit first.
pub open spec fn dec_val(s: Seq<char>) -> nat
    decreases s.len(),
{
    if s.len() == 0 {
        0
    } else {
        dec_val(s.drop_last()) * 10 + char_digit(s.last())
    }
}

/// A decimal rendering is never empty: even `0` has one digit.
pub proof fn lemma_dec_str_nonempty(n: nat)
    ensures
        dec_str(n).len() >= 1,
        dec_str(0nat) == seq!['0'],
    decreases n,
{
    if n >= 10 {
        lemma_dec_str_nonempty(n / 10);
    }
    assert(dec_str(0nat) =~= seq!['0']);
}

/// Reading the decimal rendering of `n` back as a number gives `n`; in
/// particular the rendering is injective.
pub proof fn lemma_dec_str_val(n: nat)
    ensures
        dec_val(dec_str(n)) == n,
    decreases n,
{
    if n < 10 {
        let s = dec_str(n);
        assert(s =~= seq![digit_char(n)]);
        assert(s.len() == 1);
        assert(s.last() == digit_char(n));
        assert(s.drop_last() =~= Seq::<char>::empty());
        assert(dec_val(s.drop_last()) == 0);
        assert(dec_val(s) == char_digit(digit_char(n)));
    } else {
        lemma_dec_str_val(n / 10);
        let s = dec_str(n);
        assert(s.drop_last() =~= dec_str(n / 10));
        assert(s.last() == digit_char(n % 10));
        assert(char_digit(digit_char(n % 10)) == n % 10);
        assert(dec_val(s) == (n / 10) * 10 + n % 10);
    }
}

/// Distinct numbers render as distinct digit sequences.
pub proof fn lemma_dec_str_injective(a: nat, b: nat)
    requires
        dec_str(a) == dec_str(b),
    ensures
        a == b,
{
    lemma_dec_str_val(a);
    lemma_dec_str_val(b);
}

fn digit_str(d: u64) -> (r: &'static str)
    requires
        d < 10,
    ensures
        r@ == seq![digit_char(d as nat)],
{
    let r: &'static str = if d == 0 {
        "0"
    } else if d == 1 {
        "1"
    } else if d == 2 {
        "2"
    } else if d == 3 {
        "3"
    } else if d == 4 {
        "4"
    } else if d == 5 {
        "5"
    } else if d == 6 {
        "6"
    } else if d == 7 {
        "7"
    } else if d == 8 {
        "8"
    } else {
        "9"
    };
    proof {
        reveal_strlit("0");
        reveal_strlit("1");
        reveal_strlit("2");
        reveal_strlit("3");
        reveal_strlit("4");
        reveal_strlit("5");
        reveal_strlit("6");
        reveal_strlit("7");
        reveal_strlit("8");
        reveal_strlit("9");
        assert(r@ =~= seq![digit_char(d as nat)]);
    }
    r
}

/// Appends the decimal rendering of `n` to `out`.
pub fn push_dec(out: &mut String, n: u64)
    ensures
        final(out)@ == old(out)@ + dec_str(n as nat),
    decreases n,
{
    let ghost start = out@;
    if n >= 10 {
        push_dec(out, n / 10);
    }
    let d = digit_str(n % 10);
    out.append(d);
    proof {
        if n < 10 {
            assert(out@ =~= start + dec_str(n as nat));
        } else {
            assert(out@ =~= start + dec_str(n as nat));
        }
    }
}

/// The decimal rendering of `n` as a fresh string.
pub fn u64_to_string(n: u64) -> (r: String)
    ensures
        r@ == dec_str(n as nat),
{
    let mut s = String::new();
    push_dec(&mut s, n);
    proof {
        assert(s@ =~= dec_str(n as nat));
    }
    s
}

} // verus!
