//! Decimal digits written into strings.
use vstd::prelude::*;
use vstd::string::*;

verus! {

/// The character of decimal digit `d`.
pub open spec fn digit_char(d: int) -> char {
    seq!['0', '1', '2', '3', '4', '5', '6', '7', '8', '9'][d]
}

/// `n` in decimal, with leading zeros up to at least `width` digits.
pub open spec fn decimal(n: nat, width: nat) -> Seq<char>
    decreases n + width,
{
    if n < 10 && width <= 1 {
        seq![digit_char(n as int)]
    } else {
        decimal(n / 10, if width > 0 { (width - 1) as nat } else { 0 }).push(
            digit_char((n % 10) as int),
        )
    }
}

pub open spec fn pow10(k: nat) -> nat
    decreases k,
{
    if k == 0 {
        1
    } else {
        10 * pow10((k - 1) as nat)
    }
}

/// A number below `10^width` takes exactly `width` digits.
pub proof fn lemma_decimal_len(n: nat, width: nat)
    requires
        1 <= width,
        n < pow10(width),
    ensures
        decimal(n, width).len() == width,
    decreases width,
{
    if width > 1 {
        lemma_decimal_len(n / 10, (width - 1) as nat);
    } else {
        assert(pow10(1) == 10) by {
            assert(pow10(0) == 1);
        }
    }
}

/// Dropping the last of `width` digits leaves the digits of `n / 10`.
pub proof fn lemma_decimal_drop_last(n: nat, width: nat)
    requires
        2 <= width,
        n < pow10(width),
    ensures
        decimal(n, width).take(width - 1) == decimal(n / 10, (width - 1) as nat),
{
    lemma_decimal_len(n / 10, (width - 1) as nat);
    assert(decimal(n, width).take(width - 1) =~= decimal(n / 10, (width - 1) as nat));
}

/// The text of one decimal digit.
fn digit_str(d: u128) -> (r: &'static str)
    requires
        d < 10,
    ensures
        r@ == seq![digit_char(d as int)],
{
    proof {
        reveal_strlit("0");
        reveal_strlit("1");
        reveal_strlit("2");
        reveal_strlit("3");
        reveal_strlit("4");
        reveal_strlit("5");
        reveal_strlit("6");
        reveal_strlit("7");
        reveal_strlit("8");
        reveal_strlit("9");
    }
    match d {
        0 => "0",
        1 => "1",
        2 => "2",
        3 => "3",
        4 => "4",
        5 => "5",
        6 => "6",
        7 => "7",
        8 => "8",
        _ => "9",
    }
}

/// Appends `n` in decimal, zero-padded to at least `width` digits.
pub fn push_decimal(s: &mut String, n: u128, width: u8)
    ensures
        final(s)@ == old(s)@ + decimal(n as nat, width as nat),
    decreases n + width,
{
    if !(n < 10 && width <= 1) {
        push_decimal(
            s,
            n / 10,
            if width > 0 {
                width - 1
            } else {
                0
            },
        );
    }
    s.append(digit_str(n % 10));
    proof {
        assert(final(s)@ =~= old(s)@ + decimal(n as nat, width as nat));
    }
}

} // verus!
