//! Startup symbol validation: a raw coin name becomes an upper-case
//! alphanumeric symbol with the quote suffix, or is rejected.

use vstd::prelude::*;

use crate::decimal::string_push_char;

verus! {

use vstd::string::{StrSliceExecFns, StringExecFns};

/// How many coins the watcher accepts at most.
pub const MAX_COINS: usize = 20;

pub open spec fn is_ascii_alnum(c: char) -> bool {
    ('0' <= c && c <= '9') || ('a' <= c && c <= 'z') || ('A' <= c && c <= 'Z')
}

/// ASCII letters upper-cased; everything else unchanged.
pub open spec fn upper_char(c: char) -> char {
    if 'a' <= c && c <= 'z' {
        (((c as int) - 32) as u8) as char
    } else {
        c
    }
}

pub open spec fn upper_seq(s: Seq<char>) -> Seq<char> {
    Seq::new(s.len(), |i: int| upper_char(s[i]))
}

/// A raw name the watcher accepts: every character an ASCII letter or
/// digit.
pub open spec fn valid_coin_name(s: Seq<char>) -> bool {
    forall|i: int| 0 <= i < s.len() ==> is_ascii_alnum(#[trigger] s[i])
}

/// The trading symbol of a valid raw name: upper-cased, quote suffix
/// appended.
pub open spec fn symbol_of(s: Seq<char>) -> Seq<char> {
    upper_seq(s) + seq!['U', 'S', 'D', 'T']
}

/// Turns one raw coin name into its trading symbol, or rejects it.
pub fn sanitize_symbol(raw: &str) -> (r: Option<String>)
    ensures
        match r {
            Some(sym) => valid_coin_name(raw@) && sym@ == symbol_of(raw@),
            None => !valid_coin_name(raw@),
        },
{
    let n = raw.unicode_len();
    let mut out = String::new();
    let mut i: usize = 0;
    proof {
        assert(out@ =~= upper_seq(raw@).take(0));
    }
    while i < n
        invariant
            0 <= i <= n,
            n == raw@.len(),
            forall|j: int| 0 <= j < i ==> is_ascii_alnum(#[trigger] raw@[j]),
            out@ == upper_seq(raw@).take(i as int),
        decreases n - i,
    {
        let c = raw.get_char(i);
        if ('0' <= c && c <= '9') || ('A' <= c && c <= 'Z') {
            string_push_char(&mut out, c);
        } else if 'a' <= c && c <= 'z' {
            let u = (((c as u32) - 32) as u8) as char;
            string_push_char(&mut out, u);
        } else {
            return None;
        }
        proof {
            assert(out@ =~= upper_seq(raw@).take(i as int + 1));
        }
        i = i + 1;
    }
    out.append("USDT");
    proof {
        reveal_strlit("USDT");
        assert(upper_seq(raw@).take(n as int) =~= upper_seq(raw@));
        assert(out@ =~= symbol_of(raw@));
    }
    Some(out)
}

} // verus!
