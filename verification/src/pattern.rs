//! Byte patterns with wildcards ("48 8B ?? 05") and scanning memory for them.
use vstd::prelude::*;
use crate::numparse::{
    all_digits, digit_value, digits_value, law_digit_values, parse_hex, parse_hex_spec,
    without_plus,
};
use crate::text::{chars_of, split_words, views, words};

verus! {

/// What one whitespace-separated token of a pattern stands for: `?` and `??`
/// match any byte (`None`); otherwise the token is read as a hexadecimal byte,
/// and a token that is no such byte also matches any byte.
pub open spec fn token_byte(t: Seq<char>) -> Option<u8> {
    if t == seq!['?', '?'] || t == seq!['?'] {
        None
    } else {
        match parse_hex_spec(t, 255) {
            Some(v) => Some(v as u8),
            None => None,
        }
    }
}

/// The value of a hexadecimal digit, small or capital.
pub open spec fn hex_digit_of(c: char) -> int {
    if '0' <= c <= '9' {
        (c as u32) - ('0' as u32)
    } else if 'a' <= c <= 'f' {
        (c as u32) - ('a' as u32) + 10
    } else {
        (c as u32) - ('A' as u32) + 10
    }
}

/// Whether `c` is a hexadecimal digit, small or capital.
pub open spec fn is_hex_char(c: char) -> bool {
    '0' <= c <= '9' || 'a' <= c <= 'f' || 'A' <= c <= 'F'
}

/// A token of two hexadecimal digits stands for the byte they write, high
/// digit first, whatever the case of its letters.
pub proof fn law_two_digit_token(hi: char, lo: char)
    requires
        is_hex_char(hi),
        is_hex_char(lo),
    ensures
        token_byte(seq![hi, lo]) == Some((16 * hex_digit_of(hi) + hex_digit_of(lo)) as u8),
        0 <= 16 * hex_digit_of(hi) + hex_digit_of(lo) <= 255,
{
    let t = seq![hi, lo];
    assert(t != seq!['?', '?']) by {
        assert(t[0] == hi);
    }
    assert(t != seq!['?']) by {
        assert(t.len() == 2);
    }
    assert(without_plus(t) == t);
    assert(t.drop_last() =~= seq![hi]);
    assert(seq![hi].drop_last() =~= Seq::<char>::empty());
    law_digit_values(hi);
    law_digit_values(lo);
    assert(all_digits(t, 16)) by {
        assert forall|i: int| 0 <= i < t.len() implies digit_value(#[trigger] t[i], 16) >= 0 by {
            if i == 0 {
                assert(t[i] == hi);
            } else {
                assert(t[i] == lo);
            }
        }
    }
    assert(seq![hi].last() == hi);
    assert(t.last() == lo);
    assert(digits_value(Seq::<char>::empty(), 16) == 0);
    assert(digits_value(seq![hi], 16) == hex_digit_of(hi));
    assert(digits_value(t, 16) == 16 * hex_digit_of(hi) + hex_digit_of(lo));
}

/// The pattern that the text `p` describes: one entry per word of `p`.
pub open spec fn pattern_spec(p: Seq<char>) -> Seq<Option<u8>> {
    words(p).map_values(|t: Seq<char>| token_byte(t))
}

/// Whether the nonempty pattern `pat` matches `mem` at offset `i`: the window
/// lies inside `mem` and every non-wildcard entry equals the byte under it.
pub open spec fn is_hit(mem: Seq<u8>, pat: Seq<Option<u8>>, i: int) -> bool {
    &&& pat.len() > 0
    &&& 0 <= i
    &&& i + pat.len() <= mem.len()
    &&& forall|j: int|
        0 <= j < pat.len() ==> match #[trigger] pat[j] {
            Some(b) => mem[i + j] == b,
            None => true,
        }
}

/// The pattern entry that a token gives.
fn token_to_byte(t: &Vec<char>) -> (r: Option<u8>)
    ensures
        r == token_byte(t@),
{
    let is_wild = (t.len() == 2 && t[0] == '?' && t[1] == '?') || (t.len() == 1 && t[0] == '?');
    proof {
        if t@.len() == 2 && t@[0] == '?' && t@[1] == '?' {
            assert(t@ =~= seq!['?', '?']);
        }
        if t@.len() == 1 && t@[0] == '?' {
            assert(t@ =~= seq!['?']);
        }
        if t@ == seq!['?', '?'] {
            assert(t@[0] == '?' && t@[1] == '?');
        }
        if t@ == seq!['?'] {
            assert(t@[0] == '?');
        }
    }
    if is_wild {
        None
    } else {
        match parse_hex(t, 255) {
            Some(v) => Some(v as u8),
            None => None,
        }
    }
}

/// Parses a textual byte pattern: whitespace-separated tokens, each a
/// hexadecimal byte, or `?`/`??` for a byte that may be anything.
pub fn parse_pattern(pattern: &str) -> (r: Vec<Option<u8>>)
    ensures
        r@ == pattern_spec(pattern@),
{
    let chars = chars_of(pattern);
    let tokens = split_words(&chars);
    let ghost w = words(pattern@);
    let mut out: Vec<Option<u8>> = Vec::new();
    let mut i: usize = 0;
    while i < tokens.len()
        invariant
            w == words(pattern@),
            views(tokens@) == w,
            0 <= i <= tokens@.len(),
            out@ =~= w.take(i as int).map_values(|t: Seq<char>| token_byte(t)),
        decreases tokens.len() - i,
    {
        let b = token_to_byte(&tokens[i]);
        proof {
            assert(tokens@[i as int]@ == w[i as int]);
        }
        out.push(b);
        assert(out@ =~= w.take(i + 1).map_values(|t: Seq<char>| token_byte(t)));
        i = i + 1;
    }
    assert(w.take(w.len() as int) =~= w);
    out
}

/// Whether `pattern` matches `memory` at `i`, given that the window fits.
fn window_matches(memory: &[u8], pattern: &[Option<u8>], i: usize) -> (b: bool)
    requires
        pattern@.len() > 0,
        i + pattern@.len() <= memory@.len(),
    ensures
        b == is_hit(memory@, pattern@, i as int),
{
    let mem_len = memory.len();
    let mut j: usize = 0;
    while j < pattern.len()
        invariant
            mem_len == memory@.len(),
            i + pattern@.len() <= memory@.len(),
            0 <= j <= pattern@.len(),
            forall|k: int|
                0 <= k < j ==> match #[trigger] pattern@[k] {
                    Some(b) => memory@[i + k] == b,
                    None => true,
                },
        decreases pattern.len() - j,
    {
        match pattern[j] {
            Some(p) => {
                assert(i + j < mem_len);
                if memory[i + j] != p {
                    assert(!is_hit(memory@, pattern@, i as int)) by {
                        let k = j as int;
                        assert(match pattern@[k] {
                            Some(b) => memory@[i + k] == b,
                            None => true,
                        } == false);
                    }
                    return false;
                }
            },
            None => {},
        }
        j = j + 1;
    }
    true
}

/// Every offset of `memory` at which `pattern` matches, in increasing order.
/// An empty pattern, or one longer than `memory`, matches nowhere.
pub fn pattern_scan_all(memory: &[u8], pattern: &[Option<u8>]) -> (r: Vec<usize>)
    ensures
        forall|k: int| 0 <= k < r@.len() ==> is_hit(memory@, pattern@, #[trigger] r@[k] as int),
        forall|i: int| is_hit(memory@, pattern@, i) ==> #[trigger] r@.contains(i as usize),
        forall|a: int, b: int| 0 <= a < b < r@.len() ==> r@[a] < r@[b],
{
    let mut out: Vec<usize> = Vec::new();
    if pattern.len() == 0 || pattern.len() > memory.len() {
        return out;
    }
    let mem_len = memory.len();
    let last = mem_len - pattern.len();
    let mut i: usize = 0;
    while i <= last
        invariant
            mem_len == memory@.len(),
            pattern@.len() > 0,
            last == memory@.len() - pattern@.len(),
            last < memory@.len(),
            0 <= i <= last + 1,
            forall|k: int| 0 <= k < out@.len() ==> is_hit(memory@, pattern@, #[trigger] out@[k] as int),
            forall|k: int| 0 <= k < out@.len() ==> #[trigger] out@[k] < i,
            forall|h: int| 0 <= h < i && is_hit(memory@, pattern@, h) ==> #[trigger] out@.contains(h as usize),
            forall|a: int, b: int| 0 <= a < b < out@.len() ==> out@[a] < out@[b],
        decreases last + 1 - i,
    {
        if window_matches(memory, pattern, i) {
            let ghost before = out@;
            out.push(i);
            assert forall|h: int| 0 <= h < i + 1 && is_hit(memory@, pattern@, h) implies #[trigger] out@.contains(h as usize) by {
                if h < i {
                    assert(before.contains(h as usize));
                    let w = choose|w: int| 0 <= w < before.len() && before[w] == h as usize;
                    assert(out@[w] == h as usize);
                } else {
                    assert(out@[before.len() as int] == h as usize);
                }
            }
        } else {
            assert forall|h: int| 0 <= h < i + 1 && is_hit(memory@, pattern@, h) implies #[trigger] out@.contains(h as usize) by {
                if h == i {
                    assert(false);
                }
            }
        }
        i = i + 1;
    }
    out
}

/// The pattern that matches exactly the bytes `bytes`, with no wildcard.
pub open spec fn exact_pattern(bytes: Seq<u8>) -> Seq<Option<u8>> {
    bytes.map_values(|b: u8| Some(b))
}

/// The pattern of `n` wildcards.
pub open spec fn wildcards(n: nat) -> Seq<Option<u8>> {
    Seq::new(n, |i: int| None::<u8>)
}

/// A nonempty run of bytes copied out of memory is found where it was taken.
pub proof fn law_exact_window_is_hit(mem: Seq<u8>, i: int, n: int)
    requires
        0 <= i,
        0 < n,
        i + n <= mem.len(),
    ensures
        is_hit(mem, exact_pattern(mem.subrange(i, i + n)), i),
{
    let pat = exact_pattern(mem.subrange(i, i + n));
    assert forall|j: int| 0 <= j < pat.len() implies match #[trigger] pat[j] {
        Some(b) => mem[i + j] == b,
        None => true,
    } by {
        assert(pat[j] == Some(mem.subrange(i, i + n)[j]));
    }
}

/// A pattern made only of wildcards matches at every offset where it fits.
pub proof fn law_wildcards_match_everywhere(mem: Seq<u8>, n: nat, i: int)
    requires
        n > 0,
        0 <= i,
        i + n <= mem.len(),
    ensures
        is_hit(mem, wildcards(n), i),
{
    let pat = wildcards(n);
    assert forall|j: int| 0 <= j < pat.len() implies match #[trigger] pat[j] {
        Some(b) => mem[i + j] == b,
        None => true,
    } by {
        assert(pat[j] == None::<u8>);
    }
}

/// Whether a pattern matches depends only on the bytes under it: where the
/// same bytes stand at another offset, of the same or of other memory, the
/// pattern matches there too.
pub proof fn law_hit_depends_only_on_window(mem1: Seq<u8>, mem2: Seq<u8>, pat: Seq<Option<u8>>, i: int, k: int)
    requires
        is_hit(mem1, pat, i),
        0 <= k,
        k + pat.len() <= mem2.len(),
        mem2.subrange(k, k + pat.len()) == mem1.subrange(i, i + pat.len()),
    ensures
        is_hit(mem2, pat, k),
{
    assert forall|j: int| 0 <= j < pat.len() implies match #[trigger] pat[j] {
        Some(b) => mem2[k + j] == b,
        None => true,
    } by {
        assert(mem2.subrange(k, k + pat.len())[j] == mem1.subrange(i, i + pat.len())[j]);
        assert(mem2.subrange(k, k + pat.len())[j] == mem2[k + j]);
        assert(mem1.subrange(i, i + pat.len())[j] == mem1[i + j]);
        match pat[j] {
            Some(b) => {
                assert(mem1[i + j] == b);
            },
            None => {},
        }
    }
}

} // verus!
