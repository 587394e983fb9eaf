//! Decimal text for the numbers that appear on the wire.

use vstd::prelude::*;
use vstd::string::StringExecFns;

verus! {

/// The character for the decimal digit `d`.
pub open spec fn digit(d: nat) -> char {
    if d == 0 {
        '0'
    } else if d == 1 {
        '1'
    } else if d == 2 {
        '2'
    } else if d == 3 {
        '3'
    } else if d == 4 {
        '4'
    } else if d == 5 {
        '5'
    } else if d == 6 {
        '6'
    } else if d == 7 {
        '7'
    } else if d == 8 {
        '8'
    } else {
        '9'
    }
}

/// The decimal numeral of `n`, without leading zeros.
pub open spec fn decimal(n: nat) -> Seq<char>
    decreases n,
{
    if n < 10 {
        seq![digit(n)]
    } else {
        decimal(n / 10).push(digit(n % 10))
    }
}

/// `c` is one of the ten decimal digits.
pub open spec fn is_digit(c: char) -> bool {
    c == '0' || c == '1' || c == '2' || c == '3' || c == '4' || c == '5' || c == '6' || c == '7'
        || c == '8' || c == '9'
}

/// Every character of `s` is a decimal digit.
pub open spec fn all_digits(s: Seq<char>) -> bool {
    forall|i: int| 0 <= i < s.len() ==> is_digit(#[trigger] s[i])
}

/// A decimal numeral is not empty and holds nothing but digits.
pub proof fn lemma_decimal_is_digits(n: nat)
    ensures
        decimal(n).len() >= 1,
        n >= 10 ==> decimal(n).len() >= 2,
        all_digits(decimal(n)),
    decreases n,
{
    if n >= 10 {
        lemma_decimal_is_digits(n / 10);
    }
}

/// Different numbers have different decimal numerals.
pub proof fn lemma_decimal_injective(n: nat, m: nat)
    requires
        decimal(n) == decimal(m),
    ensures
        n == m,
    decreases n,
{
    lemma_decimal_is_digits(n);
    lemma_decimal_is_digits(m);
    if n < 10 {
        assert(decimal(n)[0] == digit(n));
        assert(decimal(m)[0] == digit(m));
    } else {
        let front_n = decimal(n / 10);
        let front_m = decimal(m / 10);
        assert(front_n =~= decimal(n).drop_last());
        assert(front_m =~= decimal(m).drop_last());
        assert(decimal(n).last() == digit(n % 10));
        assert(decimal(m).last() == digit(m % 10));
        lemma_decimal_injective(n / 10, m / 10);
    }
}

/// Two texts that each begin with digits, go on with the same character
/// that is no digit, and are equal as wholes, agree on the digits and on
/// what follows that character.
pub proof fn lemma_digits_end_at_mark(
    x1: Seq<char>,
    rest1: Seq<char>,
    x2: Seq<char>,
    rest2: Seq<char>,
    mark: char,
)
    requires
        all_digits(x1),
        all_digits(x2),
        !is_digit(mark),
        x1.push(mark) + rest1 == x2.push(mark) + rest2,
    ensures
        x1 == x2,
        rest1 == rest2,
{
    let w1 = x1.push(mark) + rest1;
    let w2 = x2.push(mark) + rest2;
    if x1.len() < x2.len() {
        assert(w1[x1.len() as int] == mark);
        assert(w2[x1.len() as int] == x2[x1.len() as int]);
    }
    if x2.len() < x1.len() {
        assert(w2[x2.len() as int] == mark);
        assert(w1[x2.len() as int] == x1[x2.len() as int]);
    }
    assert(x1 =~= x2) by {
        assert forall|i: int| 0 <= i < x1.len() implies x1[i] == x2[i] by {
            assert(w1[i] == x1[i]);
            assert(w2[i] == x2[i]);
        }
    }
    assert(w1.len() == x1.len() + 1 + rest1.len());
    assert(w2.len() == x2.len() + 1 + rest2.len());
    assert(rest1.len() == rest2.len());
    assert(rest1 =~= rest2) by {
        assert forall|i: int| 0 <= i < rest1.len() implies rest1[i] == rest2[i] by {
            assert(w1[x1.len() + 1 + i] == rest1[i]);
            assert(w2[x2.len() + 1 + i] == rest2[i]);
        }
    }
}

/// The one-character text of the decimal digit `d`.
fn digit_text(d: u16) -> (text: &'static str)
    requires
        d < 10,
    ensures
        text@ == seq![digit(d as nat)],
{
    proof {
        reveal_strlit("0");
        reveal_strlit("1");
        reveal_strlit("2");
        reveal_strlit("3");
        reveal_strlit("4");
        reveal_strlit("5");
        reveal_strlit("6");
        reveal_strlit("7");
        reveal_strlit("8");
        reveal_strlit("9");
    }
    let text = if d == 0 {
        "0"
    } else if d == 1 {
        "1"
    } else if d == 2 {
        "2"
    } else if d == 3 {
        "3"
    } else if d == 4 {
        "4"
    } else if d == 5 {
        "5"
    } else if d == 6 {
        "6"
    } else if d == 7 {
        "7"
    } else if d == 8 {
        "8"
    } else {
        "9"
    };
    assert(text@ =~= seq![digit(d as nat)]);
    text
}

/// Appends the decimal numeral of `n` to `out`.
pub fn push_decimal(out: &mut String, n: u16)
    ensures
        final(out)@ == old(out)@ + decimal(n as nat),
    decreases n,
{
    if n >= 10 {
        push_decimal(out, n / 10);
    }
    out.append(digit_text(n % 10));
    proof {
        if n >= 10 {
            assert(out@ =~= old(out)@ + decimal((n / 10) as nat).push(digit((n % 10) as nat)));
        }
    }
}

} // verus!
