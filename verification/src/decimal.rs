//! Decimal rendering of unsigned integers.

use vstd::prelude::*;
use vstd::string::*;

verus! {

/// The character of one decimal digit.
pub open spec fn digit_char(d: nat) -> char {
    if d == 0 {
        '0'
    } else if d == 1 {
        '1'
    } else if d == 2 {
        '2'
    } else if d == 3 {
        '3'
    } else if d == 4 {
        '4'
    } else if d == 5 {
        '5'
    } else if d == 6 {
        '6'
    } else if d == 7 {
        '7'
    } else if d == 8 {
        '8'
    } else {
        '9'
    }
}

/// The decimal numeral of `n`, most significant digit first, without
/// leading zeros (`0` is written `"0"`).
pub open spec fn decimal_digits(n: nat) -> Seq<char>
    decreases n,
{
    if n < 10 {
        seq![digit_char(n)]
    } else {
        decimal_digits(n / 10).push(digit_char(n % 10))
    }
}

fn digit_str(d: u8) -> (s: &'static str)
    requires
        d < 10,
    ensures
        s@ == seq![digit_char(d as nat)],
{
    proof {
        reveal_strlit("0");
        reveal_strlit("1");
        reveal_strlit("2");
        reveal_strlit("3");
        reveal_strlit("4");
        reveal_strlit("5");
        reveal_strlit("6");
        reveal_strlit("7");
        reveal_strlit("8");
        reveal_strlit("9");
    }
    let s = if d == 0 {
        "0"
    } else if d == 1 {
        "1"
    } else if d == 2 {
        "2"
    } else if d == 3 {
        "3"
    } else if d == 4 {
        "4"
    } else if d == 5 {
        "5"
    } else if d == 6 {
        "6"
    } else if d == 7 {
        "7"
    } else if d == 8 {
        "8"
    } else {
        "9"
    };
    assert(s@ =~= seq![digit_char(d as nat)]);
    s
}

/// Renders `n` in decimal.
pub fn u64_to_decimal(n: u64) -> (text: String)
    ensures
        text@ == decimal_digits(n as nat),
{
    // Collect the digits least significant first, then write them out in
    // reverse. `tail` is the end of the numeral that the digits collected
    // so far make up.
    let mut digits: Vec<u8> = Vec::new();
    let mut rest: u64 = n;
    digits.push((rest % 10) as u8);
    rest = rest / 10;
    let ghost mut tail: Seq<char> = seq![digit_char((n % 10) as nat)];
    while rest > 0
        invariant
            digits@.len() >= 1,
            forall|i: int| 0 <= i < digits@.len() ==> digits@[i] < 10,
            tail.len() == digits@.len(),
            forall|i: int|
                0 <= i < digits@.len() ==> tail[i] == digit_char(
                    digits@[digits@.len() - 1 - i] as nat,
                ),
            decimal_digits(n as nat) == (if rest == 0 {
                tail
            } else {
                decimal_digits(rest as nat) + tail
            }),
        decreases rest,
    {
        let d: u8 = (rest % 10) as u8;
        let ghost before = tail;
        let ghost old_rest = rest;
        digits.push(d);
        rest = rest / 10;
        proof {
            tail = seq![digit_char(d as nat)] + before;
            assert(decimal_digits(old_rest as nat) =~= if old_rest < 10 {
                seq![digit_char(old_rest as nat)]
            } else {
                decimal_digits((old_rest / 10) as nat).push(digit_char((old_rest % 10) as nat))
            });
            if rest == 0 {
                assert(decimal_digits(old_rest as nat) + before =~= tail);
            } else {
                assert(decimal_digits(old_rest as nat) + before =~= decimal_digits(rest as nat)
                    + tail);
            }
        }
    }
    let mut text = String::new();
    let mut i: usize = digits.len();
    while i > 0
        invariant
            i <= digits@.len(),
            tail.len() == digits@.len(),
            forall|j: int| 0 <= j < digits@.len() ==> digits@[j] < 10,
            forall|j: int|
                0 <= j < digits@.len() ==> tail[j] == digit_char(
                    digits@[digits@.len() - 1 - j] as nat,
                ),
            text@ == tail.subrange(0, digits@.len() - i),
        decreases i,
    {
        i = i - 1;
        let s = digit_str(digits[i]);
        text.append(s);
        proof {
            let k = digits@.len() - 1 - i;
            assert(tail[k] == digit_char(digits@[i as int] as nat));
            assert(text@ =~= tail.subrange(0, k + 1));
        }
    }
    proof {
        assert(text@ =~= tail);
    }
    text
}

} // verus!
