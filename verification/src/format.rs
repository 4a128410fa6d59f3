//! Numbers written for people: decimal digits grouped by thousands.
use vstd::prelude::*;
use crate::period::{append_decimal, decimal};

verus! {

/// The decimal numeral of `n` padded with leading zeros to three digits.
pub open spec fn three_digits(n: nat) -> Seq<char> {
    if n < 10 {
        seq!['0', '0'] + decimal(n)
    } else if n < 100 {
        seq!['0'] + decimal(n)
    } else {
        decimal(n)
    }
}

/// The decimal numeral of `n` with a comma between each group of three digits.
pub open spec fn grouped(n: nat) -> Seq<char>
    decreases n,
{
    if n < 1000 {
        decimal(n)
    } else {
        grouped(n / 1000) + seq![','] + three_digits(n % 1000)
    }
}

/// `grouped`, with `-` before a negative number.
pub open spec fn grouped_signed(n: int) -> Seq<char> {
    if n < 0 {
        seq!['-'] + grouped((-n) as nat)
    } else {
        grouped(n as nat)
    }
}

fn append_grouped(s: &mut String, n: u64)
    ensures
        final(s)@ == old(s)@ + grouped(n as nat),
    decreases n,
{
    if n < 1000 {
        append_decimal(s, n);
    } else {
        append_grouped(s, n / 1000);
        proof {
            reveal_strlit(",");
            reveal_strlit("0");
            reveal_strlit("00");
        }
        s.append(",");
        let rest = n % 1000;
        if rest < 10 {
            s.append("00");
        } else if rest < 100 {
            s.append("0");
        }
        append_decimal(s, rest);
        assert(final(s)@ =~= old(s)@ + grouped(n as nat));
    }
}

/// Formats a number with thousands separators, such as `4,627,938`.
pub fn format_number(n: i64) -> (r: String)
    ensures
        r@ == grouped_signed(n as int),
{
    let mut s = String::new();
    if n < 0 {
        proof {
            reveal_strlit("-");
        }
        s.append("-");
        let magnitude: u64 = if n == i64::MIN { 9223372036854775808u64 } else { (-n) as u64 };
        append_grouped(&mut s, magnitude);
    } else {
        append_grouped(&mut s, n as u64);
    }
    assert(s@ =~= grouped_signed(n as int));
    s
}

/// Formats a count with thousands separators, such as `13,264`.
pub fn format_count(n: usize) -> (r: String)
    ensures
        r@ == grouped(n as nat),
{
    let mut s = String::new();
    append_grouped(&mut s, n as u64);
    assert(s@ =~= grouped(n as nat));
    s
}

} // verus!
