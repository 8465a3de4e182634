//! Decimal integer parsing and formatting used for the `Max-Age` attribute.
//!
//! `Max-Age` values are parsed exactly as `str::parse::<i64>` parses them
//! (an optional `+` or `-` sign, then one or more ASCII digits, value in
//! range for `i64`), with negative values clamped to zero; formatting
//! writes the plain decimal digits of a `u64`.

use vstd::prelude::*;
use vstd::string::*;

verus! {

pub open spec fn is_digit(c: char) -> bool {
    '0' <= c && c <= '9'
}

pub open spec fn d_val(c: char) -> int {
    (c as int) - 48
}

pub open spec fn all_digits(s: Seq<char>) -> bool {
    forall|k: int| 0 <= k < s.len() ==> is_digit(s[k])
}

/// The numeric value of a digit string, most significant digit first.
pub open spec fn digits_val(s: Seq<char>) -> int
    decreases s.len(),
{
    if s.len() == 0 {
        0
    } else {
        digits_val(s.drop_last()) * 10 + d_val(s.last())
    }
}

pub proof fn lemma_digits_val_nonneg(s: Seq<char>)
    requires
        all_digits(s),
    ensures
        digits_val(s) >= 0,
    decreases s.len(),
{
    if s.len() > 0 {
        assert(all_digits(s.drop_last()));
        lemma_digits_val_nonneg(s.drop_last());
    }
}

pub proof fn lemma_digits_val_step(s: Seq<char>, i: int)
    requires
        0 <= i < s.len(),
    ensures
        digits_val(s.take(i + 1)) == digits_val(s.take(i)) * 10 + d_val(s[i]),
{
    assert(s.take(i + 1).drop_last() =~= s.take(i));
    assert(s.take(i + 1).last() == s[i]);
}

/// Extending a digit string never decreases its value.
pub proof fn lemma_digits_val_mono(s: Seq<char>, i: int)
    requires
        all_digits(s),
        0 <= i <= s.len(),
    ensures
        digits_val(s) >= digits_val(s.take(i)),
    decreases s.len() - i,
{
    if i == s.len() {
        assert(s.take(i) =~= s);
    } else {
        assert(all_digits(s.take(i)));
        lemma_digits_val_nonneg(s.take(i));
        lemma_digits_val_step(s, i);
        lemma_digits_val_mono(s, i + 1);
    }
}

pub const I64_MAX_MAG: u128 = 0x7fff_ffff_ffff_ffff;

pub const I64_MIN_MAG: u128 = 0x8000_0000_0000_0000;

/// What the `Max-Age` attribute value yields: `None` where
/// `str::parse::<i64>` fails, `Some(0)` for a negative value, and the
/// value itself otherwise.
pub open spec fn max_age_of(s: Seq<char>) -> Option<u64> {
    if s.len() >= 1 && s[0] == '-' {
        let d = s.drop_first();
        if d.len() > 0 && all_digits(d) && digits_val(d) <= I64_MIN_MAG {
            Some(0u64)
        } else {
            None
        }
    } else {
        let d = if s.len() >= 1 && s[0] == '+' {
            s.drop_first()
        } else {
            s
        };
        if d.len() > 0 && all_digits(d) && digits_val(d) <= I64_MAX_MAG {
            Some(digits_val(d) as u64)
        } else {
            None
        }
    }
}

/// Accumulates the value of the digit run `s[start..]`, failing exactly
/// where some character is not a digit or the value exceeds `bound`.
fn digits_to_bound(s: &str, start: usize, bound: u128) -> (r: Option<u128>)
    requires
        start <= s@.len(),
        bound <= I64_MIN_MAG,
    ensures
        ({
            let d = s@.skip(start as int);
            match r {
                Some(v) => d.len() > 0 && all_digits(d) && digits_val(d) == v && v <= bound,
                None => d.len() == 0 || !all_digits(d) || digits_val(d) > bound,
            }
        }),
{
    let ghost d = s@.skip(start as int);
    let n = s.unicode_len();
    if start == n {
        return None;
    }
    let mut acc: u128 = 0;
    let mut i: usize = start;
    while i < n
        invariant
            start <= i <= n,
            n == s@.len(),
            d == s@.skip(start as int),
            bound <= I64_MIN_MAG,
            all_digits(d.take(i - start)),
            acc == digits_val(d.take(i - start)),
            acc <= bound,
        decreases n - i,
    {
        let c = s.get_char(i);
        if !('0' <= c && c <= '9') {
            proof {
                assert(d[i - start] == s@[i as int]);
                assert(!is_digit(d[i - start]));
            }
            return None;
        }
        let dv: u128 = (c as u32 as u128) - 48;
        proof {
            lemma_digits_val_step(d, i - start);
            assert(d[i - start] == s@[i as int]);
        }
        acc = acc * 10 + dv;
        i = i + 1;
        if acc > bound {
            proof {
                assert(all_digits(d.take(i - start)));
                assert(digits_val(d.take(i - start)) == acc);
                if all_digits(d) {
                    lemma_digits_val_mono(d, i - start);
                }
            }
            return None;
        }
    }
    proof {
        assert(d.take(n - start) =~= d);
    }
    Some(acc)
}

/// Parses a `Max-Age` attribute value: `str::parse::<i64>` semantics with
/// negative values clamped to zero.
pub fn parse_max_age(s: &str) -> (r: Option<u64>)
    ensures
        r == max_age_of(s@),
{
    let n = s.unicode_len();
    if n == 0 {
        return None;
    }
    let c0 = s.get_char(0);
    if c0 == '-' {
        proof {
            assert(s@.skip(1) =~= s@.drop_first());
        }
        match digits_to_bound(s, 1, I64_MIN_MAG) {
            Some(_) => Some(0),
            None => None,
        }
    } else if c0 == '+' {
        proof {
            assert(s@.skip(1) =~= s@.drop_first());
        }
        match digits_to_bound(s, 1, I64_MAX_MAG) {
            Some(v) => Some(v as u64),
            None => None,
        }
    } else {
        proof {
            assert(s@.skip(0) =~= s@);
        }
        match digits_to_bound(s, 0, I64_MAX_MAG) {
            Some(v) => Some(v as u64),
            None => None,
        }
    }
}

pub open spec fn digit_char(d: int) -> char {
    (48 + d) as char
}

/// The decimal digit string of a non-negative number, as `{}` formatting
/// of an unsigned integer writes it.
pub open spec fn dec_str(n: int) -> Seq<char>
    decreases n,
{
    if n < 10 {
        seq![digit_char(if n < 0 { 0 } else { n })]
    } else {
        dec_str(n / 10).push(digit_char(n % 10))
    }
}

fn digit_str(d: u64) -> (r: &'static str)
    requires
        d < 10,
    ensures
        r@ == seq![digit_char(d as int)],
{
    let r = match d {
        0u64 => "0",
        1u64 => "1",
        2u64 => "2",
        3u64 => "3",
        4u64 => "4",
        5u64 => "5",
        6u64 => "6",
        7u64 => "7",
        8u64 => "8",
        _ => "9",
    };
    proof {
        reveal_strlit("0");
        reveal_strlit("1");
        reveal_strlit("2");
        reveal_strlit("3");
        reveal_strlit("4");
        reveal_strlit("5");
        reveal_strlit("6");
        reveal_strlit("7");
        reveal_strlit("8");
        reveal_strlit("9");
        assert(r@ =~= seq![digit_char(d as int)]);
    }
    r
}

/// Formats a `u64` in decimal, as `{}` formatting writes it.
pub fn u64_str(n: u64) -> (r: String)
    ensures
        r@ == dec_str(n as int),
    decreases n,
{
    if n < 10 {
        String::from_str(digit_str(n))
    } else {
        let mut r = u64_str(n / 10);
        r.append(digit_str(n % 10));
        proof {
            assert(r@ =~= dec_str(n as int));
        }
        r
    }
}

} // verus!
