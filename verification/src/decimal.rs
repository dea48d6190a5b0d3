//! Decimal rendering of unsigned 64-bit integers and of lists of them,
//! specified character by character.

use vstd::prelude::*;
use vstd::string::StringExecFns;

verus! {

/// The character that writes a single decimal digit.
pub open spec fn decimal_digit(d: nat) -> char
    recommends
        d < 10,
{
    if d == 0 {
        '0'
    } else if d == 1 {
        '1'
    } else if d == 2 {
        '2'
    } else if d == 3 {
        '3'
    } else if d == 4 {
        '4'
    } else if d == 5 {
        '5'
    } else if d == 6 {
        '6'
    } else if d == 7 {
        '7'
    } else if d == 8 {
        '8'
    } else {
        '9'
    }
}

/// The decimal digits of `n`, most significant first, with no leading zero
/// except for `n == 0` itself.
pub open spec fn decimal_digits(n: nat) -> Seq<char>
    decreases n,
{
    if n < 10 {
        seq![decimal_digit(n)]
    } else {
        decimal_digits(n / 10).push(decimal_digit(n % 10))
    }
}

fn digit_str(d: u64) -> (r: &'static str)
    requires
        d < 10,
    ensures
        r@ == seq![decimal_digit(d as nat)],
{
    proof {
        reveal_strlit("0");
        reveal_strlit("1");
        reveal_strlit("2");
        reveal_strlit("3");
        reveal_strlit("4");
        reveal_strlit("5");
        reveal_strlit("6");
        reveal_strlit("7");
        reveal_strlit("8");
        reveal_strlit("9");
    }
    let r: &'static str = if d == 0 {
        "0"
    } else if d == 1 {
        "1"
    } else if d == 2 {
        "2"
    } else if d == 3 {
        "3"
    } else if d == 4 {
        "4"
    } else if d == 5 {
        "5"
    } else if d == 6 {
        "6"
    } else if d == 7 {
        "7"
    } else if d == 8 {
        "8"
    } else {
        "9"
    };
    proof {
        assert(r@ =~= seq![decimal_digit(d as nat)]);
    }
    r
}

/// Writes `n` in decimal.
pub fn u64_to_decimal(n: u64) -> (s: String)
    ensures
        s@ == decimal_digits(n as nat),
    decreases n,
{
    if n < 10 {
        digit_str(n).to_owned()
    } else {
        let mut s = u64_to_decimal(n / 10);
        s.append(digit_str(n % 10));
        proof {
            assert(s@ =~= decimal_digits(n as nat));
        }
        s
    }
}

/// The bracketed, comma-separated decimal rendering of a list of integers.
pub open spec fn number_list_text(s: Seq<u64>) -> Seq<char> {
    "["@ + number_list_inner(s) + "]"@
}

pub open spec fn number_list_inner(s: Seq<u64>) -> Seq<char>
    decreases s.len(),
{
    if s.len() == 0 {
        Seq::empty()
    } else if s.len() == 1 {
        decimal_digits(s[0] as nat)
    } else {
        number_list_inner(s.drop_last()) + ", "@ + decimal_digits(s.last() as nat)
    }
}

/// Writes a list of integers as `[n1, n2, ...]`, each in decimal.
pub fn format_number_list(numbers: &Vec<u64>) -> (s: String)
    ensures
        s@ == number_list_text(numbers@),
{
    let mut s = "[".to_owned();
    let mut i: usize = 0;
    while i < numbers.len()
        invariant
            i <= numbers@.len(),
            s@ == "["@ + number_list_inner(numbers@.take(i as int)),
        decreases numbers@.len() - i,
    {
        if i > 0 {
            s.append(", ");
        }
        let d = u64_to_decimal(numbers[i]);
        s.append(d.as_str());
        proof {
            assert(numbers@.take(i + 1).drop_last() =~= numbers@.take(i as int));
            assert(numbers@.take(i + 1).last() == numbers@[i as int]);
            assert(s@ =~= "["@ + number_list_inner(numbers@.take(i + 1)));
        }
        i = i + 1;
    }
    s.append("]");
    proof {
        assert(numbers@.take(numbers@.len() as int) =~= numbers@);
        assert(s@ =~= number_list_text(numbers@));
    }
    s
}

} // verus!
