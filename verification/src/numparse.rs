//! Reading integers written in text: the rules of `from_str_radix` for the
//! radixes this library reads (hexadecimal addresses and bytes, decimal ids).
use vstd::prelude::*;

verus! {

/// The value of `c` as a digit of `radix` (`0-9`, then `a-z` or `A-Z` from ten
/// on), or -1 where `c` is no digit of that radix.
pub open spec fn digit_value(c: char, radix: int) -> int {
    let n = c as u32 as int;
    let v = if 0x30 <= n <= 0x39 {
        n - 0x30
    } else if 0x61 <= n <= 0x7a {
        n - 0x61 + 10
    } else if 0x41 <= n <= 0x5a {
        n - 0x41 + 10
    } else {
        36
    };
    if v < radix {
        v
    } else {
        -1
    }
}

/// Every decimal digit reads as its value in both radixes; every letter from
/// `a` to `f`, small or capital, reads as ten to fifteen in hexadecimal and is
/// no decimal digit; every other character is a digit of neither.
pub proof fn law_digit_values(c: char)
    ensures
        '0' <= c <= '9' ==> digit_value(c, 16) == (c as u32) - ('0' as u32) && digit_value(c, 10)
            == (c as u32) - ('0' as u32),
        'a' <= c <= 'f' ==> digit_value(c, 16) == (c as u32) - ('a' as u32) + 10 && digit_value(
            c,
            10,
        ) == -1,
        'A' <= c <= 'F' ==> digit_value(c, 16) == (c as u32) - ('A' as u32) + 10 && digit_value(
            c,
            10,
        ) == -1,
        !('0' <= c <= '9' || 'a' <= c <= 'f' || 'A' <= c <= 'F') ==> digit_value(c, 16) == -1
            && digit_value(c, 10) == -1,
{
}

/// Whether every character of `s` is a digit of `radix`.
pub open spec fn all_digits(s: Seq<char>, radix: int) -> bool {
    forall|i: int| 0 <= i < s.len() ==> digit_value(#[trigger] s[i], radix) >= 0
}

/// The number that the digits `s` write in `radix`, most significant first.
pub open spec fn digits_value(s: Seq<char>, radix: int) -> int
    decreases s.len(),
{
    if s.len() == 0 {
        0
    } else {
        digits_value(s.drop_last(), radix) * radix + digit_value(s.last(), radix)
    }
}

/// The value of a nonempty run of digits, if it is at most `max`.
pub open spec fn bounded_value(d: Seq<char>, radix: int, max: int) -> Option<int> {
    if d.len() > 0 && all_digits(d, radix) && digits_value(d, radix) <= max {
        Some(digits_value(d, radix))
    } else {
        None
    }
}

/// `s` without a leading `+`.
pub open spec fn without_plus(s: Seq<char>) -> Seq<char> {
    if s.len() > 0 && s[0] == '+' {
        s.drop_first()
    } else {
        s
    }
}

/// What an unsigned `from_str_radix(s, 16)` gives for a type whose largest
/// value is `max`: an optional `+`, then at least one hexadecimal digit
/// (either case), with a value of at most `max`.
pub open spec fn parse_hex_spec(s: Seq<char>, max: int) -> Option<int> {
    bounded_value(without_plus(s), 16, max)
}

/// What `str::parse::<i32>` gives: an optional `+` or `-`, then at least one
/// decimal digit, with a value in the range of `i32`.
pub open spec fn parse_i32_spec(s: Seq<char>) -> Option<int> {
    if s.len() > 0 && s[0] == '-' {
        match bounded_value(s.drop_first(), 10, 0x8000_0000) {
            Some(v) => Some(-v),
            None => None,
        }
    } else {
        bounded_value(without_plus(s), 10, 0x7fff_ffff)
    }
}

proof fn lemma_digits_nonneg(s: Seq<char>, radix: int)
    requires
        all_digits(s, radix),
        radix >= 2,
    ensures
        digits_value(s, radix) >= 0,
    decreases s.len(),
{
    if s.len() > 0 {
        assert(digit_value(s[s.len() - 1], radix) >= 0);
        lemma_digits_nonneg(s.drop_last(), radix);
        let v = digits_value(s.drop_last(), radix);
        assert(v * radix >= 0) by (nonlinear_arith)
            requires
                v >= 0,
                radix >= 2,
        ;
    }
}

/// A longer run of digits is worth at least as much as any prefix of it.
proof fn lemma_digits_monotone(s: Seq<char>, k: int, radix: int)
    requires
        all_digits(s, radix),
        0 <= k <= s.len(),
        radix >= 2,
    ensures
        digits_value(s.take(k), radix) <= digits_value(s, radix),
    decreases s.len(),
{
    if k < s.len() {
        assert(s.drop_last().take(k) =~= s.take(k));
        lemma_digits_monotone(s.drop_last(), k, radix);
        lemma_digits_nonneg(s.drop_last(), radix);
        assert(digit_value(s[s.len() - 1], radix) >= 0);
        let v = digits_value(s.drop_last(), radix);
        assert(v * radix >= v) by (nonlinear_arith)
            requires
                v >= 0,
                radix >= 2,
        ;
    } else {
        assert(s.take(k) =~= s);
    }
}

/// The value of `c` as a digit of `radix`, or -1.
fn digit_of(c: char, radix: u32) -> (r: i64)
    requires
        radix == 10 || radix == 16,
    ensures
        r == digit_value(c, radix as int),
{
    let n = c as u32;
    let v: i64 = if 0x30 <= n && n <= 0x39 {
        (n - 0x30) as i64
    } else if 0x61 <= n && n <= 0x7a {
        (n - 0x61 + 10) as i64
    } else if 0x41 <= n && n <= 0x5a {
        (n - 0x41 + 10) as i64
    } else {
        36
    };
    if v < radix as i64 {
        v
    } else {
        -1
    }
}

/// Reads the digits `s[start..]` in `radix`, refusing a value above `max`.
fn parse_digits(s: &Vec<char>, start: usize, radix: u32, max: u64) -> (r: Option<u64>)
    requires
        start <= s@.len(),
        radix == 10 || radix == 16,
    ensures
        match r {
            Some(v) => bounded_value(s@.skip(start as int), radix as int, max as int) == Some(
                v as int,
            ),
            None => bounded_value(s@.skip(start as int), radix as int, max as int) is None,
        },
{
    let ghost d = s@.skip(start as int);
    if start == s.len() {
        return None;
    }
    let mut acc: u128 = 0;
    let mut i: usize = start;
    assert(d.take(0) =~= Seq::<char>::empty());
    while i < s.len()
        invariant
            start <= i <= s@.len(),
            d == s@.skip(start as int),
            radix == 10 || radix == 16,
            all_digits(d.take(i - start), radix as int),
            acc as int == digits_value(d.take(i - start), radix as int),
            acc <= max,
        decreases s.len() - i,
    {
        let ghost k = i - start;
        let dv = digit_of(s[i], radix);
        proof {
            assert(d[k] == s@[i as int]);
            assert(d.take(k + 1).drop_last() =~= d.take(k));
            assert(d.take(k + 1).last() == d[k]);
        }
        if dv < 0 {
            assert(!all_digits(d, radix as int));
            return None;
        }
        let next: u128 = if radix == 16 {
            acc * 16 + dv as u128
        } else {
            acc * 10 + dv as u128
        };
        if next > max as u128 {
            proof {
                assert forall|j: int| 0 <= j < d.take(k + 1).len() implies digit_value(
                    #[trigger] d.take(k + 1)[j],
                    radix as int,
                ) >= 0 by {
                    if j < k {
                        assert(d.take(k + 1)[j] == d.take(k)[j]);
                    }
                }
                if all_digits(d, radix as int) {
                    lemma_digits_monotone(d, k + 1, radix as int);
                }
            }
            return None;
        }
        acc = next;
        i = i + 1;
        proof {
            assert forall|j: int| 0 <= j < d.take(k + 1).len() implies digit_value(
                #[trigger] d.take(k + 1)[j],
                radix as int,
            ) >= 0 by {
                if j < k {
                    assert(d.take(k + 1)[j] == d.take(k)[j]);
                }
            }
        }
    }
    assert(d.take(s@.len() - start) =~= d);
    Some(acc as u64)
}

/// Reads `s` as a hexadecimal number of at most `max`, as `from_str_radix(s, 16)`
/// does for an unsigned type whose largest value is `max`.
pub fn parse_hex(s: &Vec<char>, max: u64) -> (r: Option<u64>)
    ensures
        match r {
            Some(v) => parse_hex_spec(s@, max as int) == Some(v as int),
            None => parse_hex_spec(s@, max as int) is None,
        },
{
    let start: usize = if s.len() > 0 && s[0] == '+' {
        1
    } else {
        0
    };
    assert(without_plus(s@) =~= s@.skip(start as int));
    parse_digits(s, start, 16, max)
}

/// Reads `s` as a decimal `i32`, as `str::parse::<i32>` does.
pub fn parse_i32(s: &Vec<char>) -> (r: Option<i32>)
    ensures
        match r {
            Some(v) => parse_i32_spec(s@) == Some(v as int),
            None => parse_i32_spec(s@) is None,
        },
{
    if s.len() > 0 && s[0] == '-' {
        assert(s@.drop_first() =~= s@.skip(1));
        match parse_digits(s, 1, 10, 0x8000_0000) {
            Some(v) => Some((0 - (v as i64)) as i32),
            None => None,
        }
    } else {
        let start: usize = if s.len() > 0 && s[0] == '+' {
            1
        } else {
            0
        };
        assert(without_plus(s@) =~= s@.skip(start as int));
        match parse_digits(s, start, 10, 0x7fff_ffff) {
            Some(v) => Some(v as i32),
            None => None,
        }
    }
}

} // verus!
