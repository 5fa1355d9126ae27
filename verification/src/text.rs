//! Decimal rendering of integers, and what a caller may know of it.

use vstd::prelude::*;
use vstd::string::*;

verus! {

/// The character of a decimal digit.
pub open spec fn digit(d: nat) -> char
    recommends
        d < 10,
{
    if d == 0 {
        '0'
    } else if d == 1 {
        '1'
    } else if d == 2 {
        '2'
    } else if d == 3 {
        '3'
    } else if d == 4 {
        '4'
    } else if d == 5 {
        '5'
    } else if d == 6 {
        '6'
    } else if d == 7 {
        '7'
    } else if d == 8 {
        '8'
    } else {
        '9'
    }
}

/// Whether a character is a decimal digit.
pub open spec fn is_digit(c: char) -> bool {
    exists|d: nat| d < 10 && c == #[trigger] digit(d)
}

/// The digits of a natural number, without leading zeros.
pub open spec fn digits(n: nat) -> Seq<char>
    decreases n,
{
    if n < 10 {
        seq![digit(n)]
    } else {
        digits(n / 10).push(digit(n % 10))
    }
}

/// An integer as it is written in a line or a file name: its digits, after a
/// minus sign where it is negative.
pub open spec fn decimal(i: int) -> Seq<char> {
    if i < 0 {
        seq!['-'] + digits((-i) as nat)
    } else {
        digits(i as nat)
    }
}

/// A number has at least one digit, and nothing but digits.
pub proof fn lemma_digits_are_digits(n: nat)
    ensures
        digits(n).len() >= 1,
        forall|k: int| 0 <= k < digits(n).len() ==> is_digit(#[trigger] digits(n)[k]),
    decreases n,
{
    if n < 10 {
        assert(is_digit(digit(n)));
    } else {
        lemma_digits_are_digits(n / 10);
        assert(is_digit(digit(n % 10)));
    }
}

/// Two numbers with the same digits are the same number.
pub proof fn lemma_digits_injective(a: nat, b: nat)
    requires
        digits(a) == digits(b),
    ensures
        a == b,
    decreases a,
{
    lemma_digits_are_digits(a / 10);
    lemma_digits_are_digits(b / 10);
    if a < 10 && b < 10 {
        assert(digits(a)[0] == digit(a));
        assert(digits(b)[0] == digit(b));
    } else if a >= 10 && b >= 10 {
        let da = digits(a / 10);
        let db = digits(b / 10);
        assert(da == digits(a).drop_last());
        assert(db == digits(b).drop_last());
        assert(digits(a).last() == digit(a % 10));
        assert(digits(b).last() == digit(b % 10));
        lemma_digits_injective(a / 10, b / 10);
    } else {
        assert(digits(a).len() != digits(b).len());
    }
}

/// A written integer holds digits and, in front of a negative one, a minus
/// sign.
pub proof fn lemma_decimal_chars(i: int)
    ensures
        decimal(i).len() >= 1,
        forall|k: int|
            0 <= k < decimal(i).len() ==> is_digit(#[trigger] decimal(i)[k]) || decimal(i)[k]
                == '-',
{
    if i < 0 {
        lemma_digits_are_digits((-i) as nat);
    } else {
        lemma_digits_are_digits(i as nat);
    }
}

/// Two integers that are written alike are the same integer.
pub proof fn lemma_decimal_injective(i: int, j: int)
    requires
        decimal(i) == decimal(j),
    ensures
        i == j,
{
    let a = (if i < 0 { -i } else { i }) as nat;
    let b = (if j < 0 { -j } else { j }) as nat;
    lemma_digits_are_digits(a);
    lemma_digits_are_digits(b);
    if i < 0 && j < 0 {
        assert(digits(a) =~= decimal(i).drop_first());
        assert(digits(b) =~= decimal(j).drop_first());
        lemma_digits_injective(a, b);
    } else if i >= 0 && j >= 0 {
        lemma_digits_injective(a, b);
    } else if i < 0 {
        assert(decimal(i)[0] == '-');
        assert(is_digit(digits(b)[0]));
    } else {
        assert(decimal(j)[0] == '-');
        assert(is_digit(digits(a)[0]));
    }
}

/// The text of one decimal digit.
fn digit_str(d: u64) -> (s: &'static str)
    requires
        d < 10,
    ensures
        s@ == seq![digit(d as nat)],
{
    proof {
        reveal_strlit("0");
        reveal_strlit("1");
        reveal_strlit("2");
        reveal_strlit("3");
        reveal_strlit("4");
        reveal_strlit("5");
        reveal_strlit("6");
        reveal_strlit("7");
        reveal_strlit("8");
        reveal_strlit("9");
    }
    let s = if d == 0 {
        "0"
    } else if d == 1 {
        "1"
    } else if d == 2 {
        "2"
    } else if d == 3 {
        "3"
    } else if d == 4 {
        "4"
    } else if d == 5 {
        "5"
    } else if d == 6 {
        "6"
    } else if d == 7 {
        "7"
    } else if d == 8 {
        "8"
    } else {
        "9"
    };
    assert(s@ =~= seq![digit(d as nat)]);
    s
}

/// Writes a natural number in decimal.
pub fn unsigned_to_string(n: u64) -> (s: String)
    ensures
        s@ == digits(n as nat),
{
    let mut out = digit_str(n % 10).to_owned();
    let mut rest: u64 = n / 10;
    while rest > 0
        invariant
            digits(n as nat) == if rest > 0 {
                digits(rest as nat) + out@
            } else {
                out@
            },
        decreases rest,
    {
        let ghost before = out@;
        let mut next = digit_str(rest % 10).to_owned();
        next.append(out.as_str());
        out = next;
        proof {
            if rest < 10 {
                assert(out@ =~= digits(rest as nat) + before);
            } else {
                assert(digits((rest / 10) as nat) + out@ =~= digits(rest as nat) + before);
            }
        }
        rest = rest / 10;
    }
    out
}

/// Writes an integer in decimal, with a minus sign where it is negative.
pub fn signed_to_string(n: i64) -> (s: String)
    ensures
        s@ == decimal(n as int),
{
    if n < 0 {
        let magnitude: u64 = (-(n + 1)) as u64 + 1;
        let mut out = "-".to_owned();
        out.append(unsigned_to_string(magnitude).as_str());
        proof {
            reveal_strlit("-");
            assert(out@ =~= decimal(n as int));
        }
        out
    } else {
        unsigned_to_string(n as u64)
    }
}

} // verus!
