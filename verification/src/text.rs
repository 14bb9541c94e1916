//! Small verified text helpers: string equality over character views and
//! the decimal rendering of the 32-bit fingerprint.

use vstd::prelude::*;
use vstd::string::*;

verus! {

/// Whether two string slices hold the same characters.
pub fn str_eq(a: &str, b: &str) -> (r: bool)
    ensures
        r == (a@ == b@),
{
    let na = a.unicode_len();
    let nb = b.unicode_len();
    if na != nb {
        return false;
    }
    let mut i: usize = 0;
    while i < na
        invariant
            0 <= i <= na,
            na == a@.len(),
            na == b@.len(),
            forall|k: int| 0 <= k < i ==> a@[k] == b@[k],
        decreases na - i,
    {
        if a.get_char(i) != b.get_char(i) {
            return false;
        }
        i = i + 1;
    }
    proof {
        assert(a@ =~= b@);
    }
    true
}

/// The character for one decimal digit.
pub open spec fn digit_char(d: nat) -> char {
    if d == 0 {
        '0'
    } else if d == 1 {
        '1'
    } else if d == 2 {
        '2'
    } else if d == 3 {
        '3'
    } else if d == 4 {
        '4'
    } else if d == 5 {
        '5'
    } else if d == 6 {
        '6'
    } else if d == 7 {
        '7'
    } else if d == 8 {
        '8'
    } else {
        '9'
    }
}

/// The decimal rendering of `n`: most significant digit first, no padding,
/// no sign, `0` rendered as one digit.
pub open spec fn decimal_digits(n: nat) -> Seq<char>
    decreases n,
{
    if n < 10 {
        seq![digit_char(n)]
    } else {
        decimal_digits(n / 10).push(digit_char(n % 10))
    }
}

/// Every character of a decimal rendering is a digit character.
pub proof fn lemma_decimal_digits_are_digits(n: nat)
    ensures
        forall|k: int|
            0 <= k < decimal_digits(n).len() ==> ('0' <= #[trigger] decimal_digits(n)[k]
                && decimal_digits(n)[k] <= '9'),
    decreases n,
{
    assert('0' <= digit_char(n % 10) && digit_char(n % 10) <= '9');
    if n < 10 {
        assert(decimal_digits(n) =~= seq![digit_char(n)]);
    } else {
        lemma_decimal_digits_are_digits(n / 10);
        assert forall|k: int| 0 <= k < decimal_digits(n).len() implies ('0'
            <= #[trigger] decimal_digits(n)[k] && decimal_digits(n)[k] <= '9') by {
            if k < decimal_digits(n / 10).len() {
                assert(decimal_digits(n)[k] == decimal_digits(n / 10)[k]);
            } else {
                assert(decimal_digits(n)[k] == digit_char(n % 10));
            }
        }
    }
}

/// A decimal rendering holds at least one digit.
pub proof fn lemma_decimal_digits_len_min(n: nat)
    ensures
        decimal_digits(n).len() >= 1,
    decreases n,
{
    if n < 10 {
    } else {
        lemma_decimal_digits_len_min(n / 10);
    }
}

/// Distinct numbers render to distinct digit sequences.
pub proof fn lemma_decimal_digits_injective(a: nat, b: nat)
    requires
        a != b,
    ensures
        decimal_digits(a) != decimal_digits(b),
    decreases a + b,
{
    lemma_decimal_digits_len_min(a);
    lemma_decimal_digits_len_min(b);
    if a < 10 && b < 10 {
        assert(decimal_digits(a) == seq![digit_char(a)]);
        assert(decimal_digits(b) == seq![digit_char(b)]);
        assert(digit_char(a) != digit_char(b));
        assert(decimal_digits(a)[0] != decimal_digits(b)[0]);
    } else if a < 10 {
        assert(decimal_digits(a).len() == 1);
        assert(decimal_digits(b).len() == decimal_digits(b / 10).len() + 1);
    } else if b < 10 {
        assert(decimal_digits(b).len() == 1);
        assert(decimal_digits(a).len() == decimal_digits(a / 10).len() + 1);
    } else {
        if a % 10 != b % 10 {
            assert(digit_char((a % 10) as nat) != digit_char((b % 10) as nat));
            assert(decimal_digits(a).last() == digit_char((a % 10) as nat));
            assert(decimal_digits(b).last() == digit_char((b % 10) as nat));
        } else {
            vstd::arithmetic::div_mod::lemma_fundamental_div_mod(a as int, 10);
            vstd::arithmetic::div_mod::lemma_fundamental_div_mod(b as int, 10);
            assert(a / 10 != b / 10);
            lemma_decimal_digits_injective(a / 10, b / 10);
            if decimal_digits(a) == decimal_digits(b) {
                assert(decimal_digits(a).drop_last() =~= decimal_digits(a / 10));
                assert(decimal_digits(b).drop_last() =~= decimal_digits(b / 10));
                assert(false);
            }
        }
    }
}

/// One digit as a string slice.
fn digit_str(d: u64) -> (r: &'static str)
    requires
        d < 10,
    ensures
        r@ =~= seq![digit_char(d as nat)],
{
    proof {
        reveal_strlit("0");
        reveal_strlit("1");
        reveal_strlit("2");
        reveal_strlit("3");
        reveal_strlit("4");
        reveal_strlit("5");
        reveal_strlit("6");
        reveal_strlit("7");
        reveal_strlit("8");
        reveal_strlit("9");
    }
    if d == 0 {
        "0"
    } else if d == 1 {
        "1"
    } else if d == 2 {
        "2"
    } else if d == 3 {
        "3"
    } else if d == 4 {
        "4"
    } else if d == 5 {
        "5"
    } else if d == 6 {
        "6"
    } else if d == 7 {
        "7"
    } else if d == 8 {
        "8"
    } else {
        "9"
    }
}

/// Renders `n` in decimal.
pub fn u64_to_decimal(n: u64) -> (r: String)
    ensures
        r@ == decimal_digits(n as nat),
    decreases n,
{
    if n < 10 {
        let r = String::from_str(digit_str(n));
        proof {
            assert(r@ =~= decimal_digits(n as nat));
        }
        r
    } else {
        let mut r = u64_to_decimal(n / 10);
        r.append(digit_str(n % 10));
        proof {
            assert(r@ =~= decimal_digits(n as nat));
        }
        r
    }
}

} // verus!
