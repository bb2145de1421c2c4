use vstd::prelude::*;

verus! {

/// The character of a decimal digit.
pub open spec fn digit(d: int) -> char {
    (0x30 + d) as char
}

/// The decimal numeral of `n`, without leading zeros.
pub open spec fn decimal(n: nat) -> Seq<char>
    decreases n,
{
    if n < 10 {
        seq![digit(n as int)]
    } else {
        decimal(n / 10).push(digit((n % 10) as int))
    }
}

/// The decimal numeral of an integer: a minus sign before a negative one.
pub open spec fn signed_decimal(v: int) -> Seq<char> {
    if v < 0 {
        seq!['-'] + decimal((-v) as nat)
    } else {
        decimal(v as nat)
    }
}

/// The digits that are still to be written in front of those already
/// produced: none when nothing is left of the number.
spec fn lead(m: nat) -> Seq<char> {
    if m == 0 {
        Seq::empty()
    } else {
        decimal(m)
    }
}

fn digit_char(d: u8) -> (c: char)
    requires
        d < 10,
    ensures
        c == digit(d as int),
{
    (0x30u8 + d) as char
}

/// Appends the decimal numeral of `n` to `out`.
pub fn push_decimal(out: &mut Vec<char>, n: u128)
    ensures
        final(out)@ == old(out)@ + decimal(n as nat),
{
    let mut digits: Vec<char> = Vec::new();
    let mut m: u128 = n / 10;
    digits.push(digit_char((n % 10) as u8));
    assert(decimal(n as nat) =~= lead(m as nat) + digits@);
    while m > 0
        invariant
            decimal(n as nat) == lead(m as nat) + digits@,
        decreases m,
    {
        let ghost before = digits@;
        let ghost prev = m;
        digits.insert(0, digit_char((m % 10) as u8));
        m = m / 10;
        assert(lead(prev as nat) + before =~= lead(m as nat) + digits@);
    }
    assert(decimal(n as nat) =~= digits@);
    out.append(&mut digits);
}

/// Appends the decimal numeral of the integer of magnitude `magnitude`,
/// negative if `negative` is set, to `out`.
pub fn push_signed_decimal(out: &mut Vec<char>, negative: bool, magnitude: u128)
    requires
        negative ==> magnitude > 0,
    ensures
        final(out)@ == old(out)@ + signed_decimal(
            if negative {
                -(magnitude as int)
            } else {
                magnitude as int
            },
        ),
{
    let ghost start = out@;
    if negative {
        out.push('-');
    }
    push_decimal(out, magnitude);
    assert(out@ =~= start + signed_decimal(
        if negative {
            -(magnitude as int)
        } else {
            magnitude as int
        },
    ));
}

} // verus!
