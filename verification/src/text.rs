//! Numbers in messages.

use vstd::prelude::*;
use vstd::string::StringExecFns;

verus! {

/// The character for a decimal digit.
pub open spec fn digit(d: nat) -> char {
    (48 + d) as char
}

/// `n` written in decimal, without leading zeros.
pub open spec fn decimal(n: nat) -> Seq<char>
    decreases n,
{
    if n < 10 {
        seq![digit(n)]
    } else {
        decimal(n / 10).push(digit(n % 10))
    }
}

/// Append one decimal digit.
fn append_digit(text: &mut String, d: usize)
    requires
        d < 10,
    ensures
        final(text)@ == old(text)@.push(digit(d as nat)),
{
    proof {
        reveal_strlit("0");
        reveal_strlit("1");
        reveal_strlit("2");
        reveal_strlit("3");
        reveal_strlit("4");
        reveal_strlit("5");
        reveal_strlit("6");
        reveal_strlit("7");
        reveal_strlit("8");
        reveal_strlit("9");
    }
    let glyph: &str = match d {
        0 => "0",
        1 => "1",
        2 => "2",
        3 => "3",
        4 => "4",
        5 => "5",
        6 => "6",
        7 => "7",
        8 => "8",
        _ => "9",
    };
    assert(glyph@ =~= seq![digit(d as nat)]);
    text.append(glyph);
    assert(text@ =~= old(text)@.push(digit(d as nat)));
}

/// Append `n` in decimal.
pub fn append_decimal(text: &mut String, n: usize)
    ensures
        final(text)@ == old(text)@ + decimal(n as nat),
    decreases n,
{
    if n < 10 {
        append_digit(text, n);
        assert(text@ =~= old(text)@ + decimal(n as nat));
    } else {
        append_decimal(text, n / 10);
        append_digit(text, n % 10);
        assert(text@ =~= old(text)@ + decimal(n as nat));
    }
}

/// The number that a row of decimal digits reads as.
pub open spec fn reads_as(digits: Seq<char>) -> nat
    decreases digits.len(),
{
    if digits.len() == 0 {
        0
    } else {
        10 * reads_as(digits.drop_last()) + (digits.last() as nat - '0' as nat) as nat
    }
}

/// A number written in decimal reads back as itself, is made of digits, and begins with a zero only
/// where it is zero.
pub proof fn decimals_read_back(n: nat)
    ensures
        decimal(n).len() > 0,
        reads_as(decimal(n)) == n,
        forall|i: int| 0 <= i < decimal(n).len() ==> '0' <= #[trigger] decimal(n)[i] <= '9',
        decimal(n)[0] == '0' ==> n == 0,
    decreases n,
{
    let digits = decimal(n);
    if n < 10 {
        assert(digits.drop_last() =~= Seq::empty());
        assert(reads_as(Seq::empty()) == 0);
    } else {
        decimals_read_back(n / 10);
        let rest = decimal(n / 10);
        assert(digits.drop_last() =~= rest);
        assert forall|i: int| 0 <= i < digits.len() implies '0' <= #[trigger] digits[i] <= '9' by {
            if i < rest.len() {
                assert(digits[i] == rest[i]);
            }
        }
        assert(digits[0] == rest[0]);
    }
}

} // verus!
