//! Verified decimal rendering of unsigned numbers.
//!
//! Workspace directories and placeholder module names both carry a decimal
//! counter; the injectivity lemma below is what makes such names unique.

use vstd::prelude::*;
use vstd::arithmetic::div_mod::lemma_fundamental_div_mod;

verus! {

/// The decimal digit character for a value below ten.
pub open spec fn digit_char(d: int) -> char {
    if d == 0 {
        '0'
    } else if d == 1 {
        '1'
    } else if d == 2 {
        '2'
    } else if d == 3 {
        '3'
    } else if d == 4 {
        '4'
    } else if d == 5 {
        '5'
    } else if d == 6 {
        '6'
    } else if d == 7 {
        '7'
    } else if d == 8 {
        '8'
    } else {
        '9'
    }
}

/// `c` is one of the ten decimal digit characters.
pub open spec fn is_dec_digit(c: char) -> bool {
    exists|d: int| 0 <= d < 10 && c == digit_char(d)
}

/// The decimal rendering of `n`, without leading zeroes (a lone zero for 0).
pub open spec fn dec_of(n: nat) -> Seq<char>
    decreases n,
{
    if n < 10 {
        seq![digit_char(n as int)]
    } else {
        dec_of(n / 10).push(digit_char((n % 10) as int))
    }
}

/// Every character of a decimal rendering is a digit, and there is at least
/// one.
pub proof fn lemma_dec_of_digits(n: nat)
    ensures
        dec_of(n).len() >= 1,
        forall|i: int| 0 <= i < dec_of(n).len() ==> is_dec_digit(#[trigger] dec_of(n)[i]),
    decreases n,
{
    if n < 10 {
        assert(is_dec_digit(digit_char(n as int)));
    } else {
        lemma_dec_of_digits(n / 10);
        assert(is_dec_digit(digit_char((n % 10) as int)));
        assert forall|i: int| 0 <= i < dec_of(n).len() implies is_dec_digit(
            #[trigger] dec_of(n)[i],
        ) by {
            if i < dec_of(n / 10).len() {
                assert(dec_of(n)[i] == dec_of(n / 10)[i]);
            }
        }
    }
}

/// Two different numbers never share a decimal rendering.
pub proof fn lemma_dec_of_injective(a: nat, b: nat)
    requires
        dec_of(a) == dec_of(b),
    ensures
        a == b,
    decreases a + b,
{
    lemma_dec_of_digits(a);
    lemma_dec_of_digits(b);
    if a < 10 && b < 10 {
        assert(dec_of(a) == seq![digit_char(a as int)]);
        assert(dec_of(b) == seq![digit_char(b as int)]);
        assert(seq![digit_char(a as int)][0] == digit_char(a as int));
        assert(seq![digit_char(b as int)][0] == digit_char(b as int));
        assert(digit_char(a as int) == digit_char(b as int));
        assert(a == b);
    } else if a < 10 && b >= 10 {
        lemma_dec_of_digits(b / 10);
        assert(dec_of(b).len() >= 2);
    } else if a >= 10 && b < 10 {
        lemma_dec_of_digits(a / 10);
        assert(dec_of(a).len() >= 2);
    } else {
        assert(dec_of(a) == dec_of(a / 10).push(digit_char((a % 10) as int)));
        assert(dec_of(b) == dec_of(b / 10).push(digit_char((b % 10) as int)));
        assert(dec_of(a / 10).push(digit_char((a % 10) as int)).last() == digit_char(
            (a % 10) as int,
        ));
        assert(dec_of(b / 10).push(digit_char((b % 10) as int)).last() == digit_char(
            (b % 10) as int,
        ));
        assert(digit_char((a % 10) as int) == digit_char((b % 10) as int));
        assert(a % 10 == b % 10);
        assert(dec_of(a).drop_last() =~= dec_of(a / 10));
        assert(dec_of(b).drop_last() =~= dec_of(b / 10));
        lemma_dec_of_injective(a / 10, b / 10);
        lemma_fundamental_div_mod(a as int, 10);
        lemma_fundamental_div_mod(b as int, 10);
    }
}

/// The digit character of a value below ten.
fn digit_str(d: u64) -> (r: &'static str)
    requires
        d < 10,
    ensures
        r@ == seq![digit_char(d as int)],
{
    proof {
        reveal_strlit("0");
        reveal_strlit("1");
        reveal_strlit("2");
        reveal_strlit("3");
        reveal_strlit("4");
        reveal_strlit("5");
        reveal_strlit("6");
        reveal_strlit("7");
        reveal_strlit("8");
        reveal_strlit("9");
    }
    if d == 0 {
        "0"
    } else if d == 1 {
        "1"
    } else if d == 2 {
        "2"
    } else if d == 3 {
        "3"
    } else if d == 4 {
        "4"
    } else if d == 5 {
        "5"
    } else if d == 6 {
        "6"
    } else if d == 7 {
        "7"
    } else if d == 8 {
        "8"
    } else {
        "9"
    }
}

/// Render `n` in decimal.
pub fn u64_to_string(n: u64) -> (r: String)
    ensures
        r@ == dec_of(n as nat),
    decreases n,
{
    if n < 10 {
        String::from_str(digit_str(n))
    } else {
        assert(n / 10 < n) by (nonlinear_arith)
            requires
                n >= 10,
        ;
        let head = u64_to_string(n / 10);
        let r = head.concat(digit_str(n % 10));
        proof {
            assert(r@ =~= dec_of((n / 10) as nat).push(digit_char((n % 10) as int)));
        }
        r
    }
}

} // verus!
