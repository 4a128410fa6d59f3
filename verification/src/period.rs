//! Time periods for grouped usage reports: days and ISO weeks.
use vstd::prelude::*;
use crate::models::GroupingMode;

verus! {

/// The decimal digit `d`.
pub open spec fn digit_char(d: nat) -> char {
    if d == 0 { '0' }
    else if d == 1 { '1' }
    else if d == 2 { '2' }
    else if d == 3 { '3' }
    else if d == 4 { '4' }
    else if d == 5 { '5' }
    else if d == 6 { '6' }
    else if d == 7 { '7' }
    else if d == 8 { '8' }
    else { '9' }
}

/// The decimal numeral of `n`, without leading zeros.
pub open spec fn decimal(n: nat) -> Seq<char>
    decreases n,
{
    if n < 10 {
        seq![digit_char(n)]
    } else {
        decimal(n / 10) + seq![digit_char(n % 10)]
    }
}

/// The decimal numeral of a signed integer, with `-` before a negative one.
pub open spec fn signed_decimal(n: int) -> Seq<char> {
    if n < 0 {
        seq!['-'] + decimal((-n) as nat)
    } else {
        decimal(n as nat)
    }
}

/// The decimal numeral of `n`, padded with a leading zero to at least two digits.
pub open spec fn decimal_two(n: nat) -> Seq<char> {
    if n < 10 {
        seq!['0'] + decimal(n)
    } else {
        decimal(n)
    }
}

fn digit_str(d: u64) -> (r: &'static str)
    requires
        d < 10,
    ensures
        r@ == seq![digit_char(d as nat)],
{
    proof {
        reveal_strlit("0");
        reveal_strlit("1");
        reveal_strlit("2");
        reveal_strlit("3");
        reveal_strlit("4");
        reveal_strlit("5");
        reveal_strlit("6");
        reveal_strlit("7");
        reveal_strlit("8");
        reveal_strlit("9");
    }
    if d == 0 { "0" }
    else if d == 1 { "1" }
    else if d == 2 { "2" }
    else if d == 3 { "3" }
    else if d == 4 { "4" }
    else if d == 5 { "5" }
    else if d == 6 { "6" }
    else if d == 7 { "7" }
    else if d == 8 { "8" }
    else { "9" }
}

/// Appends the decimal numeral of `n`.
pub fn append_decimal(s: &mut String, n: u64)
    ensures
        final(s)@ == old(s)@ + decimal(n as nat),
    decreases n,
{
    if n >= 10 {
        append_decimal(s, n / 10);
    }
    s.append(digit_str(n % 10));
    assert(final(s)@ =~= old(s)@ + decimal(n as nat)) by {
        if n >= 10 {
            assert(decimal(n as nat) == decimal((n / 10) as nat) + seq![digit_char((n % 10) as nat)]);
        }
    }
}

/// The key of an ISO week: its year, `-W`, and its number with at least two digits.
pub open spec fn iso_week_key(year: i32, week: u32) -> Seq<char> {
    signed_decimal(year as int) + seq!['-', 'W'] + decimal_two(week as nat)
}

/// What `chrono` makes of a date string: the ISO year and week of the date that
/// `NaiveDate::parse_from_str` reads from it with the format `%Y-%m-%d`, or nothing where it
/// reads no date.
pub uninterp spec fn iso_week_of_date(date: Seq<char>) -> Option<(i32, u32)>;

/// `chrono::NaiveDate::parse_from_str` with `%Y-%m-%d`, then `iso_week()`: the ISO year and
/// week of the date, whose week number chrono documents as lying between 1 and 53.
#[verifier::external_body]
fn parse_iso_week(date_str: &str) -> (r: Option<(i32, u32)>)
    ensures
        r == iso_week_of_date(date_str@),
        r matches Some((_, w)) ==> 1 <= w <= 53,
{
    match chrono::NaiveDate::parse_from_str(date_str, "%Y-%m-%d") {
        Ok(date) => {
            let week = chrono::Datelike::iso_week(&date);
            Some((week.year(), week.week()))
        },
        Err(_) => None,
    }
}

/// The period key of a date for the ISO week that `week` gives: the date itself when it is no
/// date, else the week's key.
pub open spec fn week_key(date: Seq<char>, week: Option<(i32, u32)>) -> Seq<char> {
    match week {
        Some((y, w)) => iso_week_key(y, w),
        None => date,
    }
}

/// Formats the ISO week key of a date from the ISO year and week read from it (`None` where
/// the string is no date, which then stands for itself).
pub fn format_iso_week_key(date_str: &str, week: Option<(i32, u32)>) -> (r: String)
    ensures
        r@ == week_key(date_str@, week),
{
    match week {
        Some((year, number)) => {
            let mut s = String::new();
            if year < 0 {
                proof {
                    reveal_strlit("-");
                }
                s.append("-");
                let magnitude: u64 = (-(year as i64)) as u64;
                append_decimal(&mut s, magnitude);
            } else {
                append_decimal(&mut s, year as u64);
            }
            proof {
                reveal_strlit("-W");
                reveal_strlit("0");
            }
            s.append("-W");
            if number < 10 {
                s.append("0");
            }
            append_decimal(&mut s, number as u64);
            assert(s@ =~= week_key(date_str@, week));
            s
        },
        None => date_str.to_string(),
    }
}

/// Converts a `YYYY-MM-DD` date string to the key of its ISO week (`YYYY-Www`); a string that
/// is no such date is returned unchanged.
pub fn date_to_iso_week(date_str: &str) -> (r: String)
    ensures
        r@ == week_key(date_str@, iso_week_of_date(date_str@)),
{
    let week = parse_iso_week(date_str);
    format_iso_week_key(date_str, week)
}

/// The period key of a date under a grouping mode: the date itself when grouping by day, the
/// key of its ISO week when grouping by week.
pub open spec fn period_key_spec(date: Seq<char>, mode: GroupingMode) -> Seq<char> {
    match mode {
        GroupingMode::Daily => date,
        GroupingMode::Weekly => week_key(date, iso_week_of_date(date)),
    }
}

/// Converts a `YYYY-MM-DD` date string to the period key for the given grouping mode.
pub fn to_period_key(date_str: &str, mode: GroupingMode) -> (r: String)
    ensures
        r@ == period_key_spec(date_str@, mode),
{
    match mode {
        GroupingMode::Daily => date_str.to_string(),
        GroupingMode::Weekly => date_to_iso_week(date_str),
    }
}

} // verus!
