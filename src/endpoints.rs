//! The addresses of the history feed and of the two detail sources.
use crate::calendar::{compact_date_text, CalendarDay};
use vstd::prelude::*;

verus! {

pub open spec fn digit_char(d: int) -> char {
    seq!['0', '1', '2', '3', '4', '5', '6', '7', '8', '9'][d]
}

/// The decimal digits of `n`, most significant first, with no leading zero.
pub open spec fn digits(n: nat) -> Seq<char>
    decreases n,
{
    if n < 10 {
        seq![digit_char(n as int)]
    } else {
        digits(n / 10).push(digit_char((n % 10) as int))
    }
}

/// `n` in decimal, with a leading `-` when negative.
pub open spec fn decimal_text(n: int) -> Seq<char> {
    if n < 0 {
        seq!['-'] + digits((-n) as nat)
    } else {
        digits(n as nat)
    }
}

/// The text of one decimal digit.
fn digit_text(d: u64) -> (r: &'static str)
    requires
        d < 10,
    ensures
        r@ == seq![digit_char(d as int)],
{
    proof {
        reveal_strlit("0");
        reveal_strlit("1");
        reveal_strlit("2");
        reveal_strlit("3");
        reveal_strlit("4");
        reveal_strlit("5");
        reveal_strlit("6");
        reveal_strlit("7");
        reveal_strlit("8");
        reveal_strlit("9");
    }
    match d {
        0 => "0",
        1 => "1",
        2 => "2",
        3 => "3",
        4 => "4",
        5 => "5",
        6 => "6",
        7 => "7",
        8 => "8",
        _ => "9",
    }
}

/// `n` in decimal.
pub fn decimal(n: i64) -> (r: String)
    ensures
        r@ == decimal_text(n as int),
{
    let magnitude: u64 = if n < 0 { (0i128 - n as i128) as u64 } else { n as u64 };
    let mut m: u64 = magnitude;
    let mut text = String::new();
    if magnitude == 0 {
        text = String::from_str(digit_text(0));
    } else {
        proof {
            assert(digits(magnitude as nat) + text@ =~= digits(magnitude as nat));
        }
        while m > 0
            invariant
                m > 0 ==> digits(magnitude as nat) == digits(m as nat) + text@,
                m == 0 ==> digits(magnitude as nat) == text@,
            decreases m,
        {
            let d = m % 10;
            let next = String::from_str(digit_text(d));
            proof {
                if m >= 10 {
                    assert(digits(m as nat) == digits((m / 10) as nat).push(digit_char((m % 10) as int)));
                    assert(digits((m / 10) as nat) + (next@ + text@) =~= digits(m as nat) + text@);
                } else {
                    assert(next@ + text@ =~= digits(m as nat) + text@);
                }
            }
            text = next.concat(text.as_str());
            m = m / 10;
        }
    }
    if n < 0 {
        proof {
            reveal_strlit("-");
        }
        String::from_str("-").concat(text.as_str())
    } else {
        text
    }
}

/// The history feed's listing of a day: `{base}{YYYYMMDD}.json`.
pub fn history_url(base: &str, day: &CalendarDay) -> (r: String)
    ensures
        r@ == base@ + compact_date_text(day.day()) + ".json"@,
{
    let mut url = String::from_str(base);
    let token = day.compact();
    url.append(token.as_str());
    url.append(".json");
    url
}

/// The primary source's address of a kill: `{base}{id}/`.
pub fn primary_url(base: &str, id: i64) -> (r: String)
    ensures
        r@ == base@ + decimal_text(id as int) + "/"@,
{
    let mut url = String::from_str(base);
    let digits = decimal(id);
    url.append(digits.as_str());
    url.append("/");
    url
}

/// The secondary source's address of a kill:
/// `{base}{id}/{hash}/?datasource=tranquility`.
pub fn secondary_url(base: &str, id: i64, hash: &str) -> (r: String)
    ensures
        r@ == base@ + decimal_text(id as int) + "/"@ + hash@ + "/?datasource=tranquility"@,
{
    let mut url = String::from_str(base);
    let digits = decimal(id);
    url.append(digits.as_str());
    url.append("/");
    url.append(hash);
    url.append("/?datasource=tranquility");
    url
}

} // verus!
