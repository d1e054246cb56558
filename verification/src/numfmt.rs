//! Decimal formatting of integers, as `format!("{n}")` and the
//! zero-padded `format!("{n:0w}")` write them.

use vstd::prelude::*;
use crate::strings::push_char;

verus! {

broadcast use vstd::string::group_string_axioms;

pub open spec fn digit_char(d: nat) -> char
    recommends
        d < 10,
{
    ('0' as nat + d) as char
}

/// The decimal digits of `n`, most significant first, without leading
/// zeros (`0` is written `"0"`).
pub open spec fn decimal(n: nat) -> Seq<char>
    decreases n,
{
    if n < 10 {
        seq![digit_char(n)]
    } else {
        decimal(n / 10).push(digit_char(n % 10))
    }
}

/// `n` written in at least `width` characters: a minus sign for a
/// negative number, then zeros, then the digits of its magnitude.
pub open spec fn zero_padded(n: int, width: nat) -> Seq<char> {
    let sign: Seq<char> = if n < 0 { seq!['-'] } else { Seq::empty() };
    let digits = decimal(if n < 0 { (-n) as nat } else { n as nat });
    let pad = width - sign.len() - digits.len();
    sign + Seq::new(if pad > 0 { pad as nat } else { 0 }, |i: int| '0') + digits
}

pub open spec fn pow10(k: nat) -> nat
    decreases k,
{
    if k == 0 {
        1
    } else {
        10 * pow10((k - 1) as nat)
    }
}

proof fn lemma_decimal_short(n: nat, k: nat)
    requires
        k >= 1,
        n < pow10(k),
    ensures
        decimal(n).len() <= k,
    decreases k,
{
    if n >= 10 {
        assert(k >= 2) by {
            if k == 1 {
                reveal_with_fuel(pow10, 2);
                assert(pow10(1) == 10);
            }
        }
        lemma_decimal_short(n / 10, (k - 1) as nat);
    }
}

fn digit_to_char(d: u64) -> (c: char)
    requires
        d < 10,
    ensures
        c == digit_char(d as nat),
{
    match d {
        0 => '0',
        1 => '1',
        2 => '2',
        3 => '3',
        4 => '4',
        5 => '5',
        6 => '6',
        7 => '7',
        8 => '8',
        _ => '9',
    }
}

/// The digits of `n`.
pub fn decimal_chars(n: u64) -> (digits: Vec<char>)
    ensures
        digits@ == decimal(n as nat),
    decreases n,
{
    if n < 10 {
        let mut digits: Vec<char> = Vec::new();
        digits.push(digit_to_char(n));
        proof {
            assert(digits@ =~= seq![digit_char(n as nat)]);
        }
        digits
    } else {
        let mut digits = decimal_chars(n / 10);
        digits.push(digit_to_char(n % 10));
        digits
    }
}

/// Appends `chars` to `s`.
pub fn push_chars(s: &mut String, chars: &Vec<char>)
    ensures
        final(s)@ == old(s)@ + chars@,
{
    let mut i: usize = 0;
    while i < chars.len()
        invariant
            i <= chars@.len(),
            s@ == old(s)@ + chars@.take(i as int),
        decreases chars.len() - i,
    {
        push_char(s, chars[i]);
        proof {
            assert(old(s)@ + chars@.take(i + 1) =~= (old(s)@ + chars@.take(i as int)).push(chars@[i as int]));
        }
        i = i + 1;
    }
    proof {
        assert(chars@.take(chars@.len() as int) =~= chars@);
    }
}

/// Appends `n` in decimal.
pub fn push_decimal(s: &mut String, n: u64)
    ensures
        final(s)@ == old(s)@ + decimal(n as nat),
{
    let digits = decimal_chars(n);
    push_chars(s, &digits);
}

/// Appends `n` zero-padded to `width` characters.
pub fn push_zero_padded(s: &mut String, n: i64, width: usize)
    ensures
        final(s)@ == old(s)@ + zero_padded(n as int, width as nat),
{
    let ghost start = s@;
    let negative = n < 0;
    let magnitude: u64 = if negative {
        if n == i64::MIN {
            9_223_372_036_854_775_808u64
        } else {
            (-n) as u64
        }
    } else {
        n as u64
    };
    let digits = decimal_chars(magnitude);
    proof {
        reveal_with_fuel(pow10, 21);
        assert(pow10(20) == 100_000_000_000_000_000_000);
        lemma_decimal_short(magnitude as nat, 20);
    }
    if negative {
        push_char(s, '-');
    }
    let sign_len: usize = if negative { 1 } else { 0 };
    let used = sign_len + digits.len();
    let pad = if width > used { width - used } else { 0 };
    let ghost sign: Seq<char> = if negative { seq!['-'] } else { Seq::empty() };
    let ghost zeros = Seq::new(pad as nat, |i: int| '0');
    proof {
        assert(s@ =~= start + sign);
    }
    let mut k: usize = 0;
    while k < pad
        invariant
            k <= pad,
            s@ == start + sign + Seq::new(k as nat, |i: int| '0'),
        decreases pad - k,
    {
        push_char(s, '0');
        proof {
            assert(start + sign + Seq::new((k + 1) as nat, |i: int| '0') =~= (start + sign + Seq::new(
                k as nat,
                |i: int| '0',
            )).push('0'));
        }
        k = k + 1;
    }
    push_chars(s, &digits);
    proof {
        assert(s@ =~= start + zero_padded(n as int, width as nat));
    }
}

} // verus!
