//! Decimal numerals.

use vstd::prelude::*;

verus! {

/// The character that writes the digit `d`, for `d` from 0 to 9.
pub open spec fn digit_char(d: int) -> char {
    if d == 0 {
        '0'
    } else if d == 1 {
        '1'
    } else if d == 2 {
        '2'
    } else if d == 3 {
        '3'
    } else if d == 4 {
        '4'
    } else if d == 5 {
        '5'
    } else if d == 6 {
        '6'
    } else if d == 7 {
        '7'
    } else if d == 8 {
        '8'
    } else {
        '9'
    }
}

/// The decimal numeral of `n`: its digits from the most significant to
/// the least, without a leading zero unless `n` is zero itself.
pub open spec fn nat_text(n: nat) -> Seq<char>
    decreases n,
{
    if n < 10 {
        seq![digit_char(n as int)]
    } else {
        nat_text(n / 10).push(digit_char((n % 10) as int))
    }
}

/// The decimal numeral of `n`, with a minus sign in front when `n` is
/// negative.
pub open spec fn int_text(n: int) -> Seq<char> {
    if n < 0 {
        seq!['-'] + nat_text((-n) as nat)
    } else {
        nat_text(n as nat)
    }
}

fn digit(d: u64) -> (c: char)
    requires
        d < 10,
    ensures
        c == digit_char(d as int),
{
    if d == 0 {
        '0'
    } else if d == 1 {
        '1'
    } else if d == 2 {
        '2'
    } else if d == 3 {
        '3'
    } else if d == 4 {
        '4'
    } else if d == 5 {
        '5'
    } else if d == 6 {
        '6'
    } else if d == 7 {
        '7'
    } else if d == 8 {
        '8'
    } else {
        '9'
    }
}

/// Appends the decimal numeral of `n` to `out`.
pub fn push_nat(out: &mut String, n: u64)
    ensures
        final(out)@ == old(out)@ + nat_text(n as nat),
{
    // The digits of `n` from the least significant upwards.
    let mut low_first: Vec<char> = Vec::new();
    low_first.push(digit(n % 10));
    let mut rest: u64 = n / 10;
    while rest > 0
        invariant
            low_first@.len() >= 1,
            rest > 0 ==> nat_text(n as nat) == nat_text(rest as nat) + low_first@.reverse(),
            rest == 0 ==> nat_text(n as nat) == low_first@.reverse(),
        decreases rest,
    {
        let ghost before = low_first@;
        low_first.push(digit(rest % 10));
        proof {
            assert(low_first@.reverse() =~= seq![digit_char((rest % 10) as int)]
                + before.reverse());
        }
        rest = rest / 10;
    }
    let mut k: usize = low_first.len();
    while k > 0
        invariant
            k <= low_first@.len(),
            out@ == old(out)@ + low_first@.reverse().take(low_first@.len() - k),
        decreases k,
    {
        k -= 1;
        out.push(low_first[k]);
        proof {
            let r = low_first@.reverse();
            let m = low_first@.len() - k;
            assert(r.take(m) =~= r.take(m - 1).push(low_first@[k as int]));
        }
    }
    proof {
        assert(low_first@.reverse().take(low_first@.len() as int) =~= low_first@.reverse());
    }
}

/// Appends the decimal numeral of `n` to `out`, with a minus sign in
/// front when `n` is negative.
pub fn push_int(out: &mut String, n: i64)
    ensures
        final(out)@ == old(out)@ + int_text(n as int),
{
    if n < 0 {
        out.push('-');
        let magnitude: u64 = ((-(n + 1)) as u64) + 1;
        push_nat(out, magnitude);
    } else {
        push_nat(out, n as u64);
    }
}

} // verus!
