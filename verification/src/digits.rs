//! Decimal rendering of unsigned integers: the digit characters of a number,
//! most significant first, with no sign, padding, or grouping.

use vstd::prelude::*;
use vstd::string::StringExecFns;

verus! {

/// The single character for a decimal digit value below ten.
pub open spec fn dec_digit(d: nat) -> Seq<char> {
    if d == 0 {
        "0"@
    } else if d == 1 {
        "1"@
    } else if d == 2 {
        "2"@
    } else if d == 3 {
        "3"@
    } else if d == 4 {
        "4"@
    } else if d == 5 {
        "5"@
    } else if d == 6 {
        "6"@
    } else if d == 7 {
        "7"@
    } else if d == 8 {
        "8"@
    } else {
        "9"@
    }
}

/// The decimal digits of `n`, most significant first.
pub open spec fn dec(n: nat) -> Seq<char>
    decreases n,
{
    if n < 10 {
        dec_digit(n)
    } else {
        dec(n / 10) + dec_digit(n % 10)
    }
}

/// The numeric value a digit character stands for.
pub open spec fn digit_val(c: char) -> int {
    c as int - 48
}

/// The number that a digit string denotes, read left to right.
pub open spec fn dec_value(s: Seq<char>) -> int
    decreases s.len(),
{
    if s.len() == 0 {
        0
    } else {
        dec_value(s.subrange(0, s.len() - 1)) * 10 + digit_val(s[s.len() - 1])
    }
}

/// The character of a digit value below ten is a single digit character
/// denoting that value.
pub proof fn lemma_digit_val(d: nat)
    requires
        d < 10,
    ensures
        dec_digit(d).len() == 1,
        digit_val(dec_digit(d)[0]) == d,
{
    reveal_strlit("0");
    reveal_strlit("1");
    reveal_strlit("2");
    reveal_strlit("3");
    reveal_strlit("4");
    reveal_strlit("5");
    reveal_strlit("6");
    reveal_strlit("7");
    reveal_strlit("8");
    reveal_strlit("9");
}

/// Reading the emitted decimal digits back as a number yields the number
/// they were emitted for: the digit rendering round-trips.
pub proof fn lemma_dec_round_trip(n: nat)
    ensures
        dec_value(dec(n)) == n,
    decreases n,
{
    if n < 10 {
        lemma_digit_val(n);
        assert(dec(n).subrange(0, dec(n).len() - 1) =~= Seq::<char>::empty());
        assert(dec_value(dec(n)) == dec_value(Seq::<char>::empty()) * 10 + digit_val(
            dec_digit(n)[0],
        ));
    } else {
        lemma_dec_round_trip(n / 10);
        lemma_digit_val(n % 10);
        let s = dec(n);
        assert(s.subrange(0, s.len() - 1) =~= dec(n / 10));
        assert(s[s.len() - 1] == dec_digit(n % 10)[0]);
        assert(dec_value(s) == dec_value(dec(n / 10)) * 10 + digit_val(dec_digit(n % 10)[0]));
        assert(dec_value(s) == (n / 10) * 10 + (n % 10));
        assert((n / 10) * 10 + (n % 10) == n) by {
            vstd::arithmetic::div_mod::lemma_fundamental_div_mod(n as int, 10);
        }
    }
}

/// The one-character string for a decimal digit value below ten.
pub fn digit_str(d: u128) -> (r: &'static str)
    requires
        d < 10,
    ensures
        r@ == dec_digit(d as nat),
{
    match d {
        0 => "0",
        1 => "1",
        2 => "2",
        3 => "3",
        4 => "4",
        5 => "5",
        6 => "6",
        7 => "7",
        8 => "8",
        _ => "9",
    }
}

/// Appends the decimal digits of `n` to `out`.
pub fn push_dec(out: &mut String, n: u128)
    ensures
        final(out)@ == old(out)@ + dec(n as nat),
    decreases n,
{
    if n < 10 {
        out.append(digit_str(n));
    } else {
        push_dec(out, n / 10);
        out.append(digit_str(n % 10));
        proof {
            let q = ((n as nat) / 10) as nat;
            let r = ((n as nat) % 10) as nat;
            assert((old(out)@ + dec(q)) + dec_digit(r) =~= old(out)@ + (dec(q) + dec_digit(r)));
        }
    }
}

} // verus!
