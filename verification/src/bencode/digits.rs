//! Decimal numerals, as bencode writes integers and lengths.

use vstd::prelude::*;

verus! {

/// An ASCII decimal digit.
pub open spec fn is_digit(b: u8) -> bool {
    0x30 <= b <= 0x39
}

/// Every byte of `d` is a decimal digit.
pub open spec fn all_digits(d: Seq<u8>) -> bool {
    forall|i: int| 0 <= i < d.len() ==> is_digit(#[trigger] d[i])
}

/// The number that a string of decimal digits denotes, most significant
/// digit first.
pub open spec fn decimal_value(d: Seq<u8>) -> nat
    decreases d.len(),
{
    if d.len() == 0 {
        0
    } else {
        decimal_value(d.drop_last()) * 10 + (d.last() - 0x30) as nat
    }
}

/// The shortest decimal spelling of `n`.
pub open spec fn decimal(n: nat) -> Seq<u8>
    decreases n,
{
    if n < 10 {
        seq![(0x30 + n) as u8]
    } else {
        decimal(n / 10).push((0x30 + n % 10) as u8)
    }
}

/// A numeral without a superfluous leading zero.
pub open spec fn is_minimal(d: Seq<u8>) -> bool {
    d.len() == 1 || (d.len() > 1 && d[0] != 0x30)
}

/// Where the run of digits that starts at `pos` ends.
pub open spec fn digit_run(s: Seq<u8>, pos: int) -> int
    decreases s.len() - pos,
{
    if 0 <= pos < s.len() && is_digit(s[pos]) {
        digit_run(s, pos + 1)
    } else {
        pos
    }
}

/// A run of digits stays inside the input, holds only digits, and stops at
/// the first byte that is none.
pub proof fn lemma_digit_run(s: Seq<u8>, pos: int)
    requires
        0 <= pos <= s.len(),
    ensures
        pos <= digit_run(s, pos) <= s.len(),
        forall|i: int| pos <= i < digit_run(s, pos) ==> is_digit(#[trigger] s[i]),
        digit_run(s, pos) < s.len() ==> !is_digit(s[digit_run(s, pos)]),
    decreases s.len() - pos,
{
    if pos < s.len() && is_digit(s[pos]) {
        lemma_digit_run(s, pos + 1);
    }
}

/// A stretch of digits that ends at a non-digit, or at the end of the input,
/// is the run that starts where it starts.
pub proof fn lemma_digit_run_is(s: Seq<u8>, pos: int, end: int)
    requires
        0 <= pos <= end <= s.len(),
        forall|i: int| pos <= i < end ==> is_digit(#[trigger] s[i]),
        end < s.len() ==> !is_digit(s[end]),
    ensures
        digit_run(s, pos) == end,
    decreases end - pos,
{
    if pos < end {
        lemma_digit_run_is(s, pos + 1, end);
    }
}

/// `decimal(n)` is a minimal numeral that denotes `n`.
pub proof fn lemma_decimal(n: nat)
    ensures
        decimal(n).len() >= 1,
        all_digits(decimal(n)),
        is_minimal(decimal(n)),
        n > 0 ==> decimal(n)[0] != 0x30,
        decimal_value(decimal(n)) == n,
    decreases n,
{
    if n < 10 {
        let d = decimal(n);
        assert(d.drop_last() =~= Seq::<u8>::empty());
        assert(decimal_value(d.drop_last()) == 0);
    } else {
        lemma_decimal(n / 10);
        let p = decimal(n / 10);
        let d = decimal(n);
        assert(d.drop_last() =~= p);
        assert(d[0] == p[0]);
        assert forall|i: int| 0 <= i < d.len() implies is_digit(#[trigger] d[i]) by {
            if i < p.len() {
                assert(d[i] == p[i]);
            }
        }
    }
}

/// A minimal numeral is the shortest spelling of the number it denotes.
pub proof fn lemma_decimal_of_value(d: Seq<u8>)
    requires
        d.len() >= 1,
        all_digits(d),
        is_minimal(d),
    ensures
        decimal(decimal_value(d)) == d,
        d[0] != 0x30 ==> decimal_value(d) >= 1,
    decreases d.len(),
{
    let p = d.drop_last();
    if d.len() == 1 {
        assert(p =~= Seq::<u8>::empty());
        assert(decimal_value(p) == 0);
        assert(decimal(decimal_value(d)) =~= d);
    } else {
        assert(p[0] == d[0]);
        assert forall|i: int| 0 <= i < p.len() implies is_digit(#[trigger] p[i]) by {
            assert(p[i] == d[i]);
        }
        lemma_decimal_of_value(p);
        let x = (d.last() - 0x30) as nat;
        let v = decimal_value(d);
        assert(v == decimal_value(p) * 10 + x);
        assert(v / 10 == decimal_value(p));
        assert(v % 10 == x);
        assert(decimal(v) =~= d);
    }
}

/// Whether `b` is an ASCII decimal digit.
pub fn is_digit_byte(b: u8) -> (r: bool)
    ensures
        r == is_digit(b),
{
    0x30 <= b && b <= 0x39
}

/// Reads the numeral that starts at `pos`.
///
/// Returns where its digits end and, unless it exceeds `limit`, the number it
/// denotes.
pub(crate) fn scan_number(input: &[u8], pos: usize, limit: u64) -> (r: (usize, Option<u64>))
    requires
        pos <= input.len(),
    ensures
        r.0 == digit_run(input@, pos as int),
        pos <= r.0 <= input.len(),
        match r.1 {
            Some(v) => v == decimal_value(input@.subrange(pos as int, r.0 as int)) && v <= limit,
            None => decimal_value(input@.subrange(pos as int, r.0 as int)) > limit,
        },
{
    let mut i: usize = pos;
    let mut value: u64 = 0;
    let mut over: bool = false;
    proof {
        assert(input@.subrange(pos as int, pos as int) =~= Seq::<u8>::empty());
    }
    while i < input.len() && is_digit_byte(input[i])
        invariant
            pos <= i <= input.len(),
            digit_run(input@, pos as int) == digit_run(input@, i as int),
            !over ==> value == decimal_value(input@.subrange(pos as int, i as int)) && value
                <= limit,
            over ==> decimal_value(input@.subrange(pos as int, i as int)) > limit,
        decreases input.len() - i,
    {
        let digit: u8 = input[i] - 0x30;
        proof {
            let next = input@.subrange(pos as int, i + 1);
            assert(next.drop_last() =~= input@.subrange(pos as int, i as int));
            assert(next.last() == input@[i as int]);
        }
        if !over {
            let wide: u128 = value as u128 * 10 + digit as u128;
            if wide > limit as u128 {
                over = true;
            } else {
                value = wide as u64;
            }
        }
        i = i + 1;
    }
    if over {
        (i, None)
    } else {
        (i, Some(value))
    }
}

/// Appends the shortest decimal spelling of `n` to `out`.
pub fn push_decimal(out: &mut Vec<u8>, n: u64)
    ensures
        final(out)@ == old(out)@ + decimal(n as nat),
    decreases n,
{
    if n >= 10 {
        push_decimal(out, n / 10);
    }
    out.push(0x30 + (n % 10) as u8);
    proof {
        assert(out@ =~= old(out)@ + decimal(n as nat));
    }
}

} // verus!
