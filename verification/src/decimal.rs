//! Decimal digit strings: rendering unsigned integers (with optional
//! thousands grouping and zero-padding) and parsing decimal strings into
//! scaled integers. Everything here is pure character arithmetic.

use vstd::prelude::*;

verus! {

use vstd::arithmetic::mul::{lemma_mul_basics, lemma_mul_is_associative};
use vstd::string::StrSliceExecFns;

/// The character for one decimal digit value.
pub open spec fn digit_char(d: nat) -> char {
    ((d + 48) as u8) as char
}

/// Decimal digits of `n`, most significant first; empty for 0.
pub open spec fn digits_rec(n: nat) -> Seq<char>
    decreases n,
{
    if n == 0 {
        Seq::empty()
    } else {
        digits_rec(n / 10).push(digit_char(n % 10))
    }
}

/// Standard decimal rendering of `n` ("0" for zero).
pub open spec fn dec_str(n: nat) -> Seq<char> {
    if n == 0 {
        seq!['0']
    } else {
        digits_rec(n)
    }
}

/// Exactly two digits, zero-padded; meaningful for `n < 100`.
pub open spec fn two_digits(n: nat) -> Seq<char> {
    seq![digit_char(n / 10), digit_char(n % 10)]
}

/// `s` with a comma inserted every three characters, counted from the right.
pub open spec fn grouped(s: Seq<char>) -> Seq<char>
    decreases s.len(),
{
    if s.len() <= 3 {
        s
    } else {
        grouped(s.take(s.len() - 3)) + seq![','] + s.skip(s.len() - 3)
    }
}

pub open spec fn pow10(k: nat) -> nat
    decreases k,
{
    if k == 0 {
        1
    } else {
        10 * pow10((k - 1) as nat)
    }
}

pub proof fn lemma_digits_len_le(n: nat, k: nat)
    requires
        n < pow10(k),
    ensures
        digits_rec(n).len() <= k,
    decreases k,
{
    if n == 0 {
    } else {
        if k == 0 {
            assert(pow10(0) == 1);
        } else {
            assert(pow10(k) == 10 * pow10((k - 1) as nat));
            lemma_digits_len_le(n / 10, (k - 1) as nat);
        }
    }
}

pub proof fn lemma_digits_len_ge(n: nat, k: nat)
    requires
        n >= pow10(k),
    ensures
        digits_rec(n).len() > k,
    decreases k,
{
    if k == 0 {
        assert(n >= 1);
    } else {
        assert(pow10(k) == 10 * pow10((k - 1) as nat));
        lemma_digits_len_ge(n / 10, (k - 1) as nat);
    }
}

/// Relies on String::push: appends exactly one character at the end.
#[verifier::external_body]
pub(crate) fn string_push_char(s: &mut String, c: char)
    ensures
        final(s)@ == old(s)@.push(c),
{
    s.push(c);
}

fn digit_to_char(d: u64) -> (c: char)
    requires
        d < 10,
    ensures
        c == digit_char(d as nat),
{
    (d as u8 + 48) as char
}

/// Appends the digits of `n` to `out` (nothing for 0).
fn append_digits(out: String, n: u64) -> (res: String)
    ensures
        res@ == out@ + digits_rec(n as nat),
    decreases n,
{
    if n == 0 {
        proof {
            assert(out@ + digits_rec(0) =~= out@);
        }
        out
    } else {
        let mut s = append_digits(out, n / 10);
        string_push_char(&mut s, digit_to_char(n % 10));
        proof {
            assert(s@ =~= out@ + digits_rec(n as nat));
        }
        s
    }
}

/// Appends the decimal rendering of `n` to `out`.
pub fn append_u64(out: String, n: u64) -> (res: String)
    ensures
        res@ == out@ + dec_str(n as nat),
{
    if n == 0 {
        let ghost out0 = out@;
        let mut s = out;
        string_push_char(&mut s, '0');
        proof {
            assert(s@ =~= out0 + dec_str(0));
        }
        s
    } else {
        append_digits(out, n)
    }
}

proof fn lemma_digits_split3(n: nat)
    requires
        n >= 1000,
    ensures
        digits_rec(n) == digits_rec(n / 1000) + seq![
            digit_char((n / 100) % 10),
            digit_char((n / 10) % 10),
            digit_char(n % 10),
        ],
{
    assert(n / 10 / 10 == n / 100);
    assert(n / 100 / 10 == n / 1000);
    assert(digits_rec(n) == digits_rec(n / 10).push(digit_char(n % 10)));
    assert(digits_rec(n / 10) == digits_rec(n / 100).push(digit_char((n / 10) % 10)));
    assert(digits_rec(n / 100) == digits_rec(n / 1000).push(digit_char((n / 100) % 10)));
    assert(digits_rec(n) =~= digits_rec(n / 1000) + seq![
        digit_char((n / 100) % 10),
        digit_char((n / 10) % 10),
        digit_char(n % 10),
    ]);
}

proof fn lemma_grouped_step(s: Seq<char>, t: Seq<char>)
    requires
        s.len() >= 1,
        t.len() == 3,
    ensures
        grouped(s + t) == grouped(s) + seq![','] + t,
{
    let u = s + t;
    assert(u.len() >= 4);
    assert(u.take(u.len() - 3) =~= s);
    assert(u.skip(u.len() - 3) =~= t);
}

/// Appends the digits of `n >= 1` with thousands separators.
fn append_grouped_digits(out: String, n: u64) -> (res: String)
    requires
        n >= 1,
    ensures
        res@ == out@ + grouped(digits_rec(n as nat)),
    decreases n,
{
    if n < 1000 {
        proof {
            reveal_with_fuel(pow10, 4);
            assert(pow10(3) == 1000);
            lemma_digits_len_le(n as nat, 3);
        }
        append_digits(out, n)
    } else {
        let mut s = append_grouped_digits(out, n / 1000);
        string_push_char(&mut s, ',');
        string_push_char(&mut s, digit_to_char((n / 100) % 10));
        string_push_char(&mut s, digit_to_char((n / 10) % 10));
        string_push_char(&mut s, digit_to_char(n % 10));
        proof {
            let m = n as nat;
            reveal_with_fuel(pow10, 4);
            assert(pow10(3) == 1000);
            lemma_digits_len_ge(m / 1000, 0);
            lemma_digits_split3(m);
            lemma_grouped_step(
                digits_rec(m / 1000),
                seq![digit_char((m / 100) % 10), digit_char((m / 10) % 10), digit_char(m % 10)],
            );
            assert(s@ =~= out@ + grouped(digits_rec(m)));
        }
        s
    }
}

/// Appends the decimal rendering of `n` with thousands separators.
pub fn append_grouped(out: String, n: u64) -> (res: String)
    ensures
        res@ == out@ + grouped(dec_str(n as nat)),
{
    if n == 0 {
        append_u64(out, 0)
    } else {
        append_grouped_digits(out, n)
    }
}

/// Appends exactly two digits of `n < 100`, zero-padded.
pub fn append_two_digits(out: String, n: u64) -> (res: String)
    requires
        n < 100,
    ensures
        res@ == out@ + two_digits(n as nat),
{
    let ghost out0 = out@;
    let mut s = out;
    string_push_char(&mut s, digit_to_char(n / 10));
    string_push_char(&mut s, digit_to_char(n % 10));
    proof {
        assert(s@ =~= out0 + two_digits(n as nat));
    }
    s
}

// ---------------------------------------------------------------------------
// Parsing decimal strings
// ---------------------------------------------------------------------------

pub open spec fn is_digit(c: char) -> bool {
    '0' <= c && c <= '9'
}

pub open spec fn digit_val(c: char) -> nat {
    ((c as int) - 48) as nat
}

pub open spec fn all_digits(s: Seq<char>) -> bool {
    forall|i: int| 0 <= i < s.len() ==> is_digit(s[i])
}

/// Value of a digit string, most significant first.
pub open spec fn digits_val(s: Seq<char>) -> nat
    decreases s.len(),
{
    if s.len() == 0 {
        0
    } else {
        digits_val(s.drop_last()) * 10 + digit_val(s.last())
    }
}

/// Index of the first '.', or the length if there is none.
pub open spec fn dot_index(s: Seq<char>) -> int
    decreases s.len(),
{
    if s.len() == 0 {
        0
    } else if s[0] == '.' {
        0
    } else {
        1 + dot_index(s.skip(1))
    }
}

pub open spec fn whole_digits(s: Seq<char>) -> Seq<char> {
    s.take(dot_index(s))
}

pub open spec fn frac_digits(s: Seq<char>) -> Seq<char> {
    if dot_index(s) == s.len() {
        Seq::empty()
    } else {
        s.skip(dot_index(s) + 1)
    }
}

/// A non-negative decimal number: digits around at most one point, with at
/// least one digit present.
pub open spec fn valid_decimal(s: Seq<char>) -> bool {
    let k = dot_index(s);
    &&& all_digits(s.take(k))
    &&& (k == s.len() || all_digits(s.skip(k + 1)))
    &&& (k > 0 || k + 1 < s.len())
}

/// The fraction part scaled to `fd` digits, rounded half-up.
pub open spec fn frac_scaled(f: Seq<char>, fd: nat) -> nat {
    if f.len() <= fd {
        digits_val(f) * pow10((fd - f.len()) as nat)
    } else {
        digits_val(f.take(fd as int)) + if digit_val(f[fd as int]) >= 5 {
            1nat
        } else {
            0nat
        }
    }
}

/// The decimal number times 10^fd, rounded half-up to an integer.
pub open spec fn scaled_value(s: Seq<char>, fd: nat) -> nat {
    digits_val(whole_digits(s)) * pow10(fd) + frac_scaled(frac_digits(s), fd)
}

proof fn lemma_dot_index_is(s: Seq<char>, k: int)
    requires
        0 <= k <= s.len(),
        forall|i: int| 0 <= i < k ==> s[i] != '.',
        k < s.len() ==> s[k] == '.',
    ensures
        dot_index(s) == k,
    decreases s.len(),
{
    if s.len() == 0 {
    } else if s[0] == '.' {
        assert(k == 0);
    } else {
        assert(k >= 1);
        lemma_dot_index_is(s.skip(1), k - 1);
    }
}

proof fn lemma_digits_val_take_step(s: Seq<char>, i: int)
    requires
        0 <= i < s.len(),
    ensures
        digits_val(s.take(i + 1)) == digits_val(s.take(i)) * 10 + digit_val(s[i]),
{
    assert(s.take(i + 1).drop_last() =~= s.take(i));
    assert(s.take(i + 1).last() == s[i]);
}

pub proof fn lemma_digits_val_bound(s: Seq<char>)
    requires
        all_digits(s),
    ensures
        digits_val(s) < pow10(s.len()),
    decreases s.len(),
{
    if s.len() == 0 {
    } else {
        assert(all_digits(s.drop_last()));
        lemma_digits_val_bound(s.drop_last());
        assert(is_digit(s.last()));
        assert(digit_val(s.last()) <= 9);
        assert(pow10(s.len()) == 10 * pow10((s.len() - 1) as nat));
    }
}

proof fn lemma_digits_val_prefix_mono(s: Seq<char>, i: int)
    requires
        0 <= i <= s.len(),
    ensures
        digits_val(s) >= digits_val(s.take(i)) * pow10((s.len() - i) as nat),
    decreases s.len() - i,
{
    if i == s.len() {
        assert(s.take(i) =~= s);
        assert(pow10((s.len() - i) as nat) == 1);
        lemma_mul_basics(digits_val(s) as int);
    } else {
        lemma_digits_val_prefix_mono(s, i + 1);
        lemma_digits_val_take_step(s, i);
        let a = digits_val(s.take(i)) as int;
        let b = digits_val(s.take(i + 1)) as int;
        let p = pow10((s.len() - i - 1) as nat) as int;
        let p1 = pow10((s.len() - i) as nat) as int;
        let g = digits_val(s) as int;
        assert(b >= a * 10);
        assert(p >= 1) by {
            lemma_pow10_pos((s.len() - i - 1) as nat);
        }
        assert(p1 == 10 * p);
        assert(g >= a * p1) by (nonlinear_arith)
            requires
                g >= b * p,
                b >= a * 10,
                p >= 1,
                p1 == 10 * p,
                a >= 0,
        {
        }
    }
}

pub proof fn lemma_pow10_pos(k: nat)
    ensures
        pow10(k) >= 1,
    decreases k,
{
    if k > 0 {
        lemma_pow10_pos((k - 1) as nat);
    }
}

fn pow10_u64(k: usize) -> (p: u64)
    requires
        k <= 4,
    ensures
        p == pow10(k as nat),
{
    proof {
        reveal_with_fuel(pow10, 5);
    }
    if k == 0 {
        1
    } else if k == 1 {
        10
    } else if k == 2 {
        100
    } else if k == 3 {
        1000
    } else {
        10000
    }
}

fn char_digit(c: char) -> (r: Option<u64>)
    ensures
        match r {
            Some(d) => is_digit(c) && d == digit_val(c) && d < 10,
            None => !is_digit(c),
        },
{
    if '0' <= c && c <= '9' {
        Some((c as u64) - 48)
    } else {
        None
    }
}

/// Parses a non-negative decimal string into an integer scaled by
/// `10^frac_places`, rounding half-up; `None` for malformed input or for a
/// value above `max`.
pub fn parse_scaled(s: &str, frac_places: usize, max: u64) -> (r: Option<u64>)
    requires
        frac_places <= 4,
    ensures
        match r {
            Some(v) => valid_decimal(s@) && scaled_value(s@, frac_places as nat) <= max && v
                == scaled_value(s@, frac_places as nat),
            None => !(valid_decimal(s@) && scaled_value(s@, frac_places as nat) <= max),
        },
{
    let n = s.unicode_len();
    // locate the decimal point
    let mut k: usize = 0;
    while k < n && s.get_char(k) != '.'
        invariant
            0 <= k <= n,
            n == s@.len(),
            forall|i: int| 0 <= i < k ==> s@[i] != '.',
        decreases n - k,
    {
        k = k + 1;
    }
    proof {
        lemma_dot_index_is(s@, k as int);
    }
    // at least one digit position must exist
    if !(k > 0 || (k < n && n - k > 1)) {
        return None;
    }
    // whole part
    let mut w: u64 = 0;
    let mut i: usize = 0;
    let p = pow10_u64(frac_places);
    proof {
        assert(s@.take(0) =~= Seq::<char>::empty());
        lemma_pow10_pos(frac_places as nat);
    }
    while i < k
        invariant
            0 <= i <= k <= n,
            n == s@.len(),
            dot_index(s@) == k,
            k > 0 || k + 1 < n,
            frac_places <= 4,
            p == pow10(frac_places as nat),
            p >= 1,
            w == digits_val(s@.take(i as int)),
            all_digits(s@.take(i as int)),
        decreases k - i,
    {
        let c = s.get_char(i);
        let d = match char_digit(c) {
            Some(d) => d,
            None => {
                proof {
                    assert(s@.take(k as int)[i as int] == s@[i as int]);
                    assert(!all_digits(s@.take(k as int)));
                }
                return None;
            },
        };
        let w10 = match w.checked_mul(10) {
            Some(x) => x,
            None => {
                proof {
                    lemma_parse_whole_overflow(s@, i as int, k as int, frac_places as nat, max);
                }
                return None;
            },
        };
        let w2 = match w10.checked_add(d) {
            Some(x) => x,
            None => {
                proof {
                    lemma_parse_whole_overflow(s@, i as int, k as int, frac_places as nat, max);
                }
                return None;
            },
        };
        proof {
            lemma_digits_val_take_step(s@, i as int);
        }
        w = w2;
        i = i + 1;
    }
    proof {
        assert(s@.take(k as int) == whole_digits(s@));
    }
    // scale the whole part
    let scaled_whole = match w.checked_mul(p) {
        Some(x) => x,
        None => {
            proof {
                lemma_parse_scaled_whole_large(s@, frac_places as nat, u64::MAX as nat + 1);
            }
            return None;
        },
    };
    if scaled_whole > max {
        proof {
            lemma_parse_scaled_whole_large(s@, frac_places as nat, scaled_whole as nat);
        }
        return None;
    }
    // fraction part
    let mut fr: u64 = 0;
    let mut round_up: u64 = 0;
    let ghost f = frac_digits(s@);
    if k < n {
        let mut j: usize = k + 1;
        proof {
            assert(f =~= s@.skip(k as int + 1));
            assert(f.take(0) =~= Seq::<char>::empty());
        }
        while j < n
            invariant
                k < j <= n,
                n == s@.len(),
                dot_index(s@) == k,
                frac_places <= 4,
                f == frac_digits(s@),
                f.len() == n - k - 1,
                all_digits(f.take(j - k - 1)),
                fr == digits_val(f.take(if j - k - 1 <= frac_places {
                    (j - k - 1) as int
                } else {
                    frac_places as int
                })),
                fr < pow10(if j - k - 1 <= frac_places {
                    (j - k - 1) as nat
                } else {
                    frac_places as nat
                }),
                round_up == (if j - k - 1 > frac_places && digit_val(f[frac_places as int]) >= 5 {
                    1u64
                } else {
                    0u64
                }),
            decreases n - j,
        {
            let t = j - k - 1;
            let c = s.get_char(j);
            let d = match char_digit(c) {
                Some(d) => d,
                None => {
                    proof {
                        assert(f[t as int] == s@[j as int]);
                        assert(!all_digits(s@.skip(k as int + 1)));
                    }
                    return None;
                },
            };
            proof {
                assert(f[t as int] == s@[j as int]);
                assert(f.take(t as int + 1).drop_last() =~= f.take(t as int));
                assert(all_digits(f.take(t as int + 1)));
            }
            if t < frac_places {
                proof {
                    lemma_digits_val_take_step(f, t as int);
                    assert(pow10((t + 1) as nat) == 10 * pow10(t as nat));
                    reveal_with_fuel(pow10, 5);
                    lemma_pow10_mono(t as nat, 4);
                    assert(fr < 10000);
                }
                fr = fr * 10 + d;
            } else if t == frac_places {
                if d >= 5 {
                    round_up = 1;
                } else {
                    round_up = 0;
                }
            }
            proof {
                if t + 1 <= frac_places {
                    assert(fr == digits_val(f.take(t as int + 1)));
                } else {
                    assert(f.take(if t <= frac_places { t as int } else { frac_places as int }) =~= f.take(frac_places as int));
                    assert(f.take(frac_places as int) =~= f.take(if t + 1 <= frac_places { (t + 1) as int } else { frac_places as int }));
                }
            }
            j = j + 1;
        }
    }
    // pad short fractions to frac_places digits
    let kept: u64 = if k >= n || n - k - 1 < frac_places {
        let missing = if k >= n {
            frac_places
        } else {
            frac_places - (n - k - 1)
        };
        proof {
            if k >= n {
                assert(f =~= Seq::<char>::empty());
            }
            assert(f.take(f.len() as int) =~= f);
            lemma_pow10_pos(missing as nat);
            assert(fr < pow10(f.len() as nat));
            lemma_frac_pad_bound(fr as nat, f.len() as nat, missing as nat, frac_places as nat);
        }
        fr * pow10_u64(missing)
    } else {
        proof {
            if f.len() == frac_places {
                assert(f.take(frac_places as int) =~= f);
            }
            reveal_with_fuel(pow10, 5);
            lemma_pow10_mono(frac_places as nat, 4);
            assert(fr < 10000);
        }
        fr + round_up
    };
    proof {
        if k < n {
            assert(f.take(f.len() as int) =~= f);
            assert(all_digits(f));
        }
        assert(kept == frac_scaled(f, frac_places as nat)) by {
            if k >= n {
                assert(f.len() == 0);
                lemma_mul_basics(digits_val(f) as int);
                assert(pow10((frac_places - f.len()) as nat) == pow10(frac_places as nat));
            } else if f.len() < frac_places {
                assert(f.take(f.len() as int) =~= f);
            } else if f.len() == frac_places {
                assert(f.take(f.len() as int) =~= f);
                assert(f.take(frac_places as int) =~= f);
                assert(pow10((frac_places - f.len()) as nat) == 1);
                lemma_mul_basics(digits_val(f) as int);
            }
        }
        lemma_frac_scaled_bound(f, frac_places as nat);
        assert(valid_decimal(s@));
        assert(scaled_value(s@, frac_places as nat) == scaled_whole + kept);
    }
    let total = match scaled_whole.checked_add(kept) {
        Some(x) => x,
        None => {
            return None;
        },
    };
    if total > max {
        return None;
    }
    Some(total)
}

/// The fraction part scaled to `fd` digits stays under `pow10(fd)`,
/// provided its digits are digits.
proof fn lemma_frac_scaled_bound(f: Seq<char>, fd: nat)
    requires
        all_digits(f),
    ensures
        frac_scaled(f, fd) <= pow10(fd),
{
    if f.len() <= fd {
        lemma_digits_val_bound(f);
        lemma_pow10_mul((fd - f.len()) as nat, f.len() as nat);
        lemma_pow10_pos((fd - f.len()) as nat);
        let a = digits_val(f) as int;
        let q = pow10((fd - f.len()) as nat) as int;
        let b = pow10(f.len()) as int;
        let pd = pow10(fd) as int;
        assert(a * q <= pd) by (nonlinear_arith)
            requires
                a < b,
                q >= 1,
                q * b == pd,
                a >= 0,
        {
        }
    } else {
        assert(all_digits(f.take(fd as int)));
        lemma_digits_val_bound(f.take(fd as int));
    }
}

proof fn lemma_frac_pad_bound(fr: nat, flen: nat, missing: nat, fd: nat)
    requires
        fr < pow10(flen),
        missing == fd - flen,
        flen <= fd,
        fd <= 4,
    ensures
        fr * pow10(missing) < pow10(fd),
        fr * pow10(missing) <= u64::MAX,
{
    lemma_pow10_mul(missing, flen);
    lemma_pow10_pos(missing);
    assert(pow10(fd) <= 10000) by {
        reveal_with_fuel(pow10, 5);
        lemma_pow10_mono(fd, 4);
    }
    let m = pow10(missing) as int;
    let fl = pow10(flen) as int;
    let pd = pow10(fd) as int;
    assert(fr * m < pd) by (nonlinear_arith)
        requires
            (fr as int) < fl,
            m >= 1,
            m * fl == pd,
            fr >= 0,
    {
    }
}

proof fn lemma_pow10_mono(a: nat, b: nat)
    requires
        a <= b,
    ensures
        pow10(a) <= pow10(b),
    decreases b,
{
    if a < b {
        lemma_pow10_mono(a, (b - 1) as nat);
        lemma_pow10_pos((b - 1) as nat);
    }
}

proof fn lemma_pow10_mul(a: nat, b: nat)
    ensures
        pow10(a) * pow10(b) == pow10(a + b),
    decreases a,
{
    if a == 0 {
        assert(pow10(0) == 1);
    } else {
        lemma_pow10_mul((a - 1) as nat, b);
        assert(pow10(a) == 10 * pow10((a - 1) as nat));
        lemma_mul_is_associative(10, pow10((a - 1) as nat) as int, pow10(b) as int);
    }
}

/// If the whole part's prefix already overflows u64, the scaled value is
/// above any u64 `max`.
proof fn lemma_parse_whole_overflow(s: Seq<char>, i: int, k: int, fd: nat, max: u64)
    requires
        0 <= i < k <= s.len(),
        dot_index(s) == k,
        digits_val(s.take(i)) * 10 + digit_val(s[i]) > u64::MAX,
    ensures
        scaled_value(s, fd) > max,
{
    lemma_digits_val_take_step(s, i);
    lemma_digits_val_prefix_mono(s.take(k), i + 1);
    assert(s.take(k).take(i + 1) =~= s.take(i + 1));
    let w = digits_val(s.take(k)) as int;
    let v = digits_val(s.take(i + 1)) as int;
    let q = pow10((k - i - 1) as nat) as int;
    let p = pow10(fd) as int;
    lemma_pow10_pos((k - i - 1) as nat);
    lemma_pow10_pos(fd);
    assert(w >= v * q);
    assert(w * p > max as int) by (nonlinear_arith)
        requires
            w >= v * q,
            v > u64::MAX as int,
            q >= 1,
            p >= 1,
            (max as int) <= u64::MAX as int,
            w >= 0,
            v >= 0,
    {
    }
    assert(whole_digits(s) == s.take(k));
    assert(scaled_value(s, fd) >= w * p);
}

/// If the scaled whole part alone exceeds the bound, so does the value.
proof fn lemma_parse_scaled_whole_large(s: Seq<char>, fd: nat, bound: nat)
    requires
        digits_val(whole_digits(s)) * pow10(fd) >= bound,
    ensures
        scaled_value(s, fd) >= bound,
{
}

} // verus!
