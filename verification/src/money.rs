//! Numeric formatting for the display: currency with thousands separators,
//! compact magnitude suffixes, percent changes and elapsed-time labels.
//! Prices travel as integer cents, percent changes as hundredths of a
//! percent, volumes as whole units.

use vstd::prelude::*;

use crate::decimal::{
    append_grouped, append_two_digits, append_u64, dec_str, digit_char, grouped, string_push_char,
    two_digits,
};

verus! {

/// `a / b` rounded to the nearest integer, halves rounding up.
pub open spec fn rounded_div(a: nat, b: nat) -> nat {
    a / b + if a % b * 2 >= b {
        1nat
    } else {
        0nat
    }
}

/// One decimal place: the tenths count `t` rendered as "W.D".
pub open spec fn one_decimal(t: nat) -> Seq<char> {
    dec_str(t / 10) + seq!['.', digit_char(t % 10)]
}

/// "$1,234.56": a whole-cent amount with thousands separators and exactly
/// two cent digits.
pub open spec fn spec_format_price(cents: nat) -> Seq<char> {
    seq!['$'] + grouped(dec_str(cents / 100)) + seq!['.'] + two_digits(cents % 100)
}

/// Compact price: "$1.5M" from a million dollars up, "$1.5k" from a
/// thousand up, otherwise the plain two-decimal form.
pub open spec fn spec_format_price_short(cents: nat) -> Seq<char> {
    if cents >= 100_000_000 {
        seq!['$'] + one_decimal(rounded_div(cents, 10_000_000)) + seq!['M']
    } else if cents >= 100_000 {
        seq!['$'] + one_decimal(rounded_div(cents, 10_000)) + seq!['k']
    } else {
        seq!['$'] + dec_str(cents / 100) + seq!['.'] + two_digits(cents % 100)
    }
}

/// Volume with a magnitude suffix: "1.5B", "1.5M", "1.5K", or a plain
/// integer below a thousand.
pub open spec fn spec_format_volume(v: nat) -> Seq<char> {
    if v >= 1_000_000_000 {
        one_decimal(rounded_div(v, 100_000_000)) + seq!['B']
    } else if v >= 1_000_000 {
        one_decimal(rounded_div(v, 100_000)) + seq!['M']
    } else if v >= 1_000 {
        one_decimal(rounded_div(v, 100)) + seq!['K']
    } else {
        dec_str(v)
    }
}

/// Unsigned percent with two decimals: "3.25%", of a count of hundredths.
pub open spec fn spec_format_percent(hundredths: nat) -> Seq<char> {
    dec_str(hundredths / 100) + seq!['.'] + two_digits(hundredths % 100) + seq!['%']
}

/// Elapsed time: "12s ago" under a minute, else whole minutes "3m ago".
pub open spec fn spec_ago(secs: nat) -> Seq<char> {
    if secs < 60 {
        dec_str(secs) + seq!['s', ' ', 'a', 'g', 'o']
    } else {
        dec_str(secs / 60) + seq!['m', ' ', 'a', 'g', 'o']
    }
}

fn div_round_half_up(a: u64, b: u64) -> (r: u64)
    requires
        b >= 2,
    ensures
        r == rounded_div(a as nat, b as nat),
{
    proof {
        vstd::arithmetic::div_mod::lemma_div_is_ordered_by_denominator(a as int, 2, b as int);
    }
    a / b + if a % b >= b - a % b {
        1
    } else {
        0
    }
}

fn append_one_decimal(out: String, t: u64) -> (res: String)
    ensures
        res@ == out@ + one_decimal(t as nat),
{
    let ghost out0 = out@;
    let s = append_u64(out, t / 10);
    let mut s = s;
    string_push_char(&mut s, '.');
    let d = (t % 10) as u8;
    string_push_char(&mut s, (d + 48) as char);
    proof {
        assert(s@ =~= out0 + one_decimal(t as nat));
    }
    s
}

/// Currency with grouping: 100000 cents comes out as "$1,000.00".
pub fn format_price(cents: u64) -> (s: String)
    ensures
        s@ == spec_format_price(cents as nat),
{
    let mut s = String::new();
    string_push_char(&mut s, '$');
    let s = append_grouped(s, cents / 100);
    let mut s = s;
    string_push_char(&mut s, '.');
    let s = append_two_digits(s, cents % 100);
    proof {
        assert(s@ =~= spec_format_price(cents as nat));
    }
    s
}

/// Compact currency for tight axis labels and summaries.
pub fn format_price_short(cents: u64) -> (s: String)
    ensures
        s@ == spec_format_price_short(cents as nat),
{
    let mut s = String::new();
    string_push_char(&mut s, '$');
    if cents >= 100_000_000 {
        let t = div_round_half_up(cents, 10_000_000);
        let mut s = append_one_decimal(s, t);
        string_push_char(&mut s, 'M');
        proof {
            assert(s@ =~= spec_format_price_short(cents as nat));
        }
        s
    } else if cents >= 100_000 {
        let t = div_round_half_up(cents, 10_000);
        let mut s = append_one_decimal(s, t);
        string_push_char(&mut s, 'k');
        proof {
            assert(s@ =~= spec_format_price_short(cents as nat));
        }
        s
    } else {
        let s = append_u64(s, cents / 100);
        let mut s = s;
        string_push_char(&mut s, '.');
        let s = append_two_digits(s, cents % 100);
        proof {
            assert(s@ =~= spec_format_price_short(cents as nat));
        }
        s
    }
}

/// Volume with a magnitude suffix.
pub fn format_volume(v: u64) -> (s: String)
    ensures
        s@ == spec_format_volume(v as nat),
{
    if v >= 1_000_000_000 {
        let t = div_round_half_up(v, 100_000_000);
        let mut s = append_one_decimal(String::new(), t);
        string_push_char(&mut s, 'B');
        proof {
            assert(s@ =~= spec_format_volume(v as nat));
        }
        s
    } else if v >= 1_000_000 {
        let t = div_round_half_up(v, 100_000);
        let mut s = append_one_decimal(String::new(), t);
        string_push_char(&mut s, 'M');
        proof {
            assert(s@ =~= spec_format_volume(v as nat));
        }
        s
    } else if v >= 1_000 {
        let t = div_round_half_up(v, 100);
        let mut s = append_one_decimal(String::new(), t);
        string_push_char(&mut s, 'K');
        proof {
            assert(s@ =~= spec_format_volume(v as nat));
        }
        s
    } else {
        let s = append_u64(String::new(), v);
        proof {
            assert(s@ =~= spec_format_volume(v as nat));
        }
        s
    }
}

/// Magnitude of a signed count of hundredths of a percent.
pub open spec fn abs_hundredths(bp: int) -> nat {
    if bp >= 0 {
        bp as nat
    } else {
        (-bp) as nat
    }
}

/// The absolute percent change with two decimals; the caller supplies the
/// direction marker.
pub fn format_percent(bp: i64) -> (s: String)
    requires
        bp != i64::MIN,
    ensures
        s@ == spec_format_percent(abs_hundredths(bp as int)),
{
    let a: u64 = if bp < 0 {
        (-bp) as u64
    } else {
        bp as u64
    };
    let s = append_u64(String::new(), a / 100);
    let mut s = s;
    string_push_char(&mut s, '.');
    let s = append_two_digits(s, a % 100);
    let mut s = s;
    string_push_char(&mut s, '%');
    proof {
        assert(s@ =~= spec_format_percent(abs_hundredths(bp as int)));
    }
    s
}

/// How long ago an instant was, in coarse human units.
pub fn ago_label(secs: u64) -> (s: String)
    ensures
        s@ == spec_ago(secs as nat),
{
    if secs < 60 {
        let mut s = append_u64(String::new(), secs);
        string_push_char(&mut s, 's');
        string_push_char(&mut s, ' ');
        string_push_char(&mut s, 'a');
        string_push_char(&mut s, 'g');
        string_push_char(&mut s, 'o');
        proof {
            assert(s@ =~= spec_ago(secs as nat));
        }
        s
    } else {
        let mut s = append_u64(String::new(), secs / 60);
        string_push_char(&mut s, 'm');
        string_push_char(&mut s, ' ');
        string_push_char(&mut s, 'a');
        string_push_char(&mut s, 'g');
        string_push_char(&mut s, 'o');
        proof {
            assert(s@ =~= spec_ago(secs as nat));
        }
        s
    }
}

} // verus!
