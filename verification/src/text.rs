//! Character-level text handling: the splitting, searching and comparing that
//! the `/proc` parsers and the pattern parser are built from.
use vstd::prelude::*;

verus! {

/// The contents of each vector in `v`, in order.
pub open spec fn views(v: Seq<Vec<char>>) -> Seq<Seq<char>> {
    v.map_values(|x: Vec<char>| x@)
}

/// Collects the characters of `s` into a vector.
pub fn chars_of(s: &str) -> (v: Vec<char>)
    ensures
        v@ == s@,
{
    let mut v: Vec<char> = Vec::new();
    for c in it: s.chars()
        invariant
            v@ == it.seq().take(it.index() as int),
            it.seq() == s@,
    {
        v.push(c);
    }
    v
}

// ---------------------------------------------------------------------------
// Whitespace and words
// ---------------------------------------------------------------------------

/// The Unicode `White_Space` property, the set that `char::is_whitespace` tests.
pub open spec fn is_ws(c: char) -> bool {
    let n = c as u32;
    ||| 0x9 <= n <= 0xD
    ||| n == 0x20
    ||| n == 0x85
    ||| n == 0xA0
    ||| n == 0x1680
    ||| 0x2000 <= n <= 0x200A
    ||| n == 0x2028
    ||| n == 0x2029
    ||| n == 0x202F
    ||| n == 0x205F
    ||| n == 0x3000
}

/// Whether `c` is whitespace in the sense of `char::is_whitespace`.
pub fn is_whitespace(c: char) -> (b: bool)
    ensures
        b == is_ws(c),
{
    let n = c as u32;
    (0x9 <= n && n <= 0xD) || n == 0x20 || n == 0x85 || n == 0xA0 || n == 0x1680 || (0x2000 <= n
        && n <= 0x200A) || n == 0x2028 || n == 0x2029 || n == 0x202F || n == 0x205F || n == 0x3000
}

/// The maximal runs of non-whitespace characters of `s`, in order: what
/// `str::split_whitespace` yields.
pub open spec fn words(s: Seq<char>) -> Seq<Seq<char>>
    decreases s.len(),
{
    if s.len() == 0 {
        seq![]
    } else {
        let w = words(s.drop_last());
        let c = s.last();
        if is_ws(c) {
            w
        } else if s.len() >= 2 && !is_ws(s[s.len() - 2]) {
            w.update(w.len() - 1, w.last().push(c))
        } else {
            w.push(seq![c])
        }
    }
}

/// Splits `s` into its whitespace-separated words (`str::split_whitespace`).
pub fn split_words(s: &Vec<char>) -> (r: Vec<Vec<char>>)
    ensures
        views(r@) == words(s@),
{
    let mut done: Vec<Vec<char>> = Vec::new();
    let mut cur: Vec<char> = Vec::new();
    let mut i: usize = 0;
    while i < s.len()
        invariant
            0 <= i <= s.len(),
            cur@.len() > 0 <==> (i > 0 && !is_ws(s@[i - 1])),
            words(s@.take(i as int)) == (if cur@.len() > 0 {
                views(done@).push(cur@)
            } else {
                views(done@)
            }),
        decreases s.len() - i,
    {
        let c = s[i];
        let ghost prev = s@.take(i as int);
        let ghost next = s@.take(i + 1);
        proof {
            assert(next.drop_last() =~= prev);
            assert(next.last() == c);
            if i > 0 {
                assert(next[next.len() - 2] == s@[i - 1]);
            }
        }
        if is_whitespace(c) {
            if cur.len() > 0 {
                let ghost old_done = done@;
                done.push(cur);
                assert(views(done@) =~= views(old_done).push(views(done@).last()));
                cur = Vec::new();
            }
        } else {
            let ghost old_cur = cur@;
            cur.push(c);
            proof {
                if old_cur.len() > 0 {
                    let w = views(done@).push(old_cur);
                    assert(w.update(w.len() - 1, w.last().push(c)) =~= views(done@).push(cur@));
                } else {
                    assert(seq![c] =~= cur@);
                }
            }
        }
        i = i + 1;
    }
    if cur.len() > 0 {
        let ghost old_done = done@;
        done.push(cur);
        assert(views(done@) =~= views(old_done).push(views(done@).last()));
    }
    assert(s@.take(s@.len() as int) =~= s@);
    done
}

// ---------------------------------------------------------------------------
// Splitting on separator characters
// ---------------------------------------------------------------------------

/// The pieces of `s` between the characters that `seps` holds, in order,
/// empty pieces included: what `str::split` with such a pattern yields.
pub open spec fn split_on_any(s: Seq<char>, seps: Seq<char>) -> Seq<Seq<char>>
    decreases s.len(),
{
    if s.len() == 0 {
        seq![seq![]]
    } else {
        let p = split_on_any(s.drop_last(), seps);
        let c = s.last();
        if seps.contains(c) {
            p.push(seq![])
        } else {
            p.update(p.len() - 1, p.last().push(c))
        }
    }
}

/// Whether `c` is one of `seps`.
pub fn is_one_of(c: char, seps: &Vec<char>) -> (b: bool)
    ensures
        b == seps@.contains(c),
{
    let mut i: usize = 0;
    while i < seps.len()
        invariant
            0 <= i <= seps.len(),
            forall|j: int| 0 <= j < i ==> seps@[j] != c,
        decreases seps.len() - i,
    {
        if seps[i] == c {
            return true;
        }
        i = i + 1;
    }
    false
}

/// Splits `s` at every character that `seps` holds.
pub fn split_any(s: &Vec<char>, seps: &Vec<char>) -> (r: Vec<Vec<char>>)
    ensures
        views(r@) == split_on_any(s@, seps@),
        r@.len() >= 1,
{
    let mut done: Vec<Vec<char>> = Vec::new();
    let mut cur: Vec<char> = Vec::new();
    let mut i: usize = 0;
    assert(s@.take(0) =~= Seq::<char>::empty());
    assert(views(done@).push(cur@) =~= seq![seq![]]);
    while i < s.len()
        invariant
            0 <= i <= s.len(),
            split_on_any(s@.take(i as int), seps@) == views(done@).push(cur@),
        decreases s.len() - i,
    {
        let c = s[i];
        proof {
            assert(s@.take(i + 1).drop_last() =~= s@.take(i as int));
            assert(s@.take(i + 1).last() == c);
        }
        if is_one_of(c, seps) {
            let ghost old_done = done@;
            let ghost old_cur = cur@;
            done.push(cur);
            cur = Vec::new();
            assert(views(done@).push(cur@) =~= views(old_done).push(old_cur).push(seq![]));
        } else {
            let ghost old_cur = cur@;
            cur.push(c);
            proof {
                let p = views(done@).push(old_cur);
                assert(p.update(p.len() - 1, p.last().push(c)) =~= views(done@).push(cur@));
            }
        }
        i = i + 1;
    }
    let ghost before = done@;
    done.push(cur);
    assert(views(done@) =~= views(before).push(views(done@).last()));
    assert(s@.take(s@.len() as int) =~= s@);
    done
}

// ---------------------------------------------------------------------------
// Lines
// ---------------------------------------------------------------------------

/// `l` without one trailing carriage return, if it ends with one.
pub open spec fn strip_cr(l: Seq<char>) -> Seq<char> {
    if l.len() > 0 && l.last() == '\r' {
        l.drop_last()
    } else {
        l
    }
}

/// The lines of `s`, as `str::lines` documents them: split at `\n`, a `\r`
/// just before a `\n` removed, and no empty last line after a final `\n`.
pub open spec fn lines(s: Seq<char>) -> Seq<Seq<char>> {
    let p = split_on_any(s, seq!['\n']);
    let n = p.len() - 1;
    let ended = Seq::new(n as nat, |i: int| strip_cr(p[i]));
    if p[n].len() == 0 {
        ended
    } else {
        ended.push(p[n])
    }
}

/// Splits `s` into lines (`str::lines`).
pub fn split_lines(s: &Vec<char>) -> (r: Vec<Vec<char>>)
    ensures
        views(r@) == lines(s@),
{
    let mut nl: Vec<char> = Vec::new();
    nl.push('\n');
    assert(nl@ =~= seq!['\n']);
    let pieces = split_any(s, &nl);
    let ghost p = views(pieces@);
    let n = pieces.len() - 1;
    let mut out: Vec<Vec<char>> = Vec::new();
    let mut i: usize = 0;
    while i < n
        invariant
            n == pieces@.len() - 1,
            p == views(pieces@),
            0 <= i <= n,
            views(out@) =~= Seq::new(i as nat, |k: int| strip_cr(p[k])),
        decreases n - i,
    {
        let piece = &pieces[i];
        let len = piece.len();
        let mut line: Vec<char> = Vec::new();
        let keep = if len > 0 && piece[len - 1] == '\r' {
            len - 1
        } else {
            len
        };
        let mut j: usize = 0;
        while j < keep
            invariant
                0 <= j <= keep <= piece@.len(),
                line@ =~= piece@.take(j as int),
            decreases keep - j,
        {
            line.push(piece[j]);
            j = j + 1;
        }
        proof {
            assert(piece@ == p[i as int]);
            if len > 0 && piece@[len - 1] == '\r' {
                assert(line@ =~= p[i as int].drop_last());
            } else {
                assert(line@ =~= p[i as int]);
            }
        }
        let ghost old_out = out@;
        out.push(line);
        assert(views(out@) =~= views(old_out).push(strip_cr(p[i as int])));
        i = i + 1;
    }
    if pieces[n].len() > 0 {
        let last = pieces[n].clone();
        let ghost old_out = out@;
        assert(last@ == p[n as int]);
        out.push(last);
        assert(views(out@) =~= views(old_out).push(p[n as int]));
    }
    out
}

// ---------------------------------------------------------------------------
// Searching and comparing
// ---------------------------------------------------------------------------

/// Whether `needle` occurs in `hay` at position `i`.
pub open spec fn occurs_at(hay: Seq<char>, needle: Seq<char>, i: int) -> bool {
    0 <= i && i + needle.len() <= hay.len() && hay.subrange(i, i + needle.len()) == needle
}

/// Whether `needle` occurs anywhere in `hay` (`str::contains`); the empty
/// string occurs in every string.
pub open spec fn contains_seq(hay: Seq<char>, needle: Seq<char>) -> bool {
    exists|i: int| occurs_at(hay, needle, i)
}

/// Whether `needle` occurs in `hay` at position `i`.
fn occurs_here(hay: &Vec<char>, needle: &Vec<char>, i: usize) -> (b: bool)
    requires
        i + needle@.len() <= hay@.len(),
    ensures
        b == occurs_at(hay@, needle@, i as int),
{
    let hay_len = hay.len();
    let mut j: usize = 0;
    while j < needle.len()
        invariant
            hay_len == hay@.len(),
            0 <= j <= needle@.len(),
            i + needle@.len() <= hay@.len(),
            forall|k: int| 0 <= k < j ==> hay@[i + k] == needle@[k],
        decreases needle.len() - j,
    {
        assert(i + j < hay@.len());
        if hay[i + j] != needle[j] {
            assert(hay@.subrange(i as int, i + needle@.len())[j as int] != needle@[j as int]);
            return false;
        }
        j = j + 1;
    }
    assert(hay@.subrange(i as int, i + needle@.len()) =~= needle@);
    true
}

/// Whether `needle` occurs anywhere in `hay` (`str::contains`).
pub fn contains(hay: &Vec<char>, needle: &Vec<char>) -> (b: bool)
    ensures
        b == contains_seq(hay@, needle@),
{
    if needle.len() > hay.len() {
        return false;
    }
    let last = hay.len() - needle.len();
    let mut i: usize = 0;
    while i < last
        invariant
            last == hay@.len() - needle@.len(),
            0 <= i <= last,
            forall|k: int| 0 <= k < i ==> !occurs_at(hay@, needle@, k),
        decreases last - i,
    {
        if occurs_here(hay, needle, i) {
            return true;
        }
        i = i + 1;
    }
    occurs_here(hay, needle, last)
}

/// Whether `s` begins with `prefix` (`str::starts_with`).
pub open spec fn starts_with_seq(s: Seq<char>, prefix: Seq<char>) -> bool {
    prefix.len() <= s.len() && s.take(prefix.len() as int) == prefix
}

/// Whether `s` begins with `prefix`.
pub fn starts_with(s: &Vec<char>, prefix: &Vec<char>) -> (b: bool)
    ensures
        b == starts_with_seq(s@, prefix@),
{
    if prefix.len() > s.len() {
        return false;
    }
    let b = occurs_here(s, prefix, 0);
    assert(s@.subrange(0, prefix@.len() as int) =~= s@.take(prefix@.len() as int));
    b
}

/// The code point of `c` after `char::to_ascii_lowercase`: an ASCII capital
/// letter becomes its small letter, every other character stays.
pub open spec fn ascii_lower(c: char) -> int {
    let n = c as u32;
    if 0x41 <= n <= 0x5a {
        n + 32
    } else {
        n as int
    }
}

/// Whether `a` and `b` are equal but for the case of ASCII letters
/// (`str::eq_ignore_ascii_case`).
pub open spec fn eq_ignore_ascii_case_seq(a: Seq<char>, b: Seq<char>) -> bool {
    a.len() == b.len() && forall|i: int| 0 <= i < a.len() ==> ascii_lower(#[trigger] a[i]) == ascii_lower(b[i])
}

/// Two strings are equal ignoring ASCII case exactly when they are equally
/// long and, at each position, the characters have the same code point or one
/// is an ASCII
/// capital letter and the other its small letter.
pub proof fn law_eq_ignore_ascii_case(a: Seq<char>, b: Seq<char>)
    ensures
        eq_ignore_ascii_case_seq(a, b) <==> (a.len() == b.len() && forall|i: int|
            0 <= i < a.len() ==> ((#[trigger] a[i] as u32) == (b[i] as u32) || (0x41 <= (a[i] as u32) <= 0x5a && (b[i] as u32)
                == (a[i] as u32) + 32) || (0x41 <= (b[i] as u32) <= 0x5a && (a[i] as u32) == (b[i] as u32)
                + 32))),
{
    if a.len() == b.len() {
        assert forall|i: int| 0 <= i < a.len() implies (ascii_lower(#[trigger] a[i]) == ascii_lower(
            b[i],
        ) <==> ((a[i] as u32) == (b[i] as u32) || (0x41 <= (a[i] as u32) <= 0x5a && (b[i] as u32) == (a[i] as u32) + 32) || (
        0x41 <= (b[i] as u32) <= 0x5a && (a[i] as u32) == (b[i] as u32) + 32))) by {
        }
    }
}

fn to_ascii_lower(c: char) -> (r: u32)
    ensures
        r == ascii_lower(c),
{
    let n = c as u32;
    if 0x41 <= n && n <= 0x5a {
        n + 32
    } else {
        n
    }
}

/// Compares `a` and `b` ignoring the case of ASCII letters.
pub fn eq_ignore_ascii_case(a: &Vec<char>, b: &Vec<char>) -> (r: bool)
    ensures
        r == eq_ignore_ascii_case_seq(a@, b@),
{
    if a.len() != b.len() {
        return false;
    }
    let mut i: usize = 0;
    while i < a.len()
        invariant
            a@.len() == b@.len(),
            0 <= i <= a@.len(),
            forall|k: int| 0 <= k < i ==> ascii_lower(#[trigger] a@[k]) == ascii_lower(b@[k]),
        decreases a.len() - i,
    {
        if to_ascii_lower(a[i]) != to_ascii_lower(b[i]) {
            return false;
        }
        i = i + 1;
    }
    true
}

// ---------------------------------------------------------------------------
// Trimming
// ---------------------------------------------------------------------------

/// `s` without its leading whitespace.
pub open spec fn trim_start(s: Seq<char>) -> Seq<char>
    decreases s.len(),
{
    if s.len() > 0 && is_ws(s[0]) {
        trim_start(s.drop_first())
    } else {
        s
    }
}

/// `s` without its trailing whitespace.
pub open spec fn trim_end(s: Seq<char>) -> Seq<char>
    decreases s.len(),
{
    if s.len() > 0 && is_ws(s.last()) {
        trim_end(s.drop_last())
    } else {
        s
    }
}

/// `s` without leading and trailing whitespace (`str::trim`).
pub open spec fn trim_seq(s: Seq<char>) -> Seq<char> {
    trim_end(trim_start(s))
}

/// The characters of `s` from `from` on, without leading and trailing
/// whitespace.
pub fn trim_from(s: &Vec<char>, from: usize) -> (r: Vec<char>)
    requires
        from <= s@.len(),
    ensures
        r@ == trim_seq(s@.skip(from as int)),
{
    let mut a: usize = from;
    assert(trim_start(s@.skip(from as int)) == trim_start(s@.skip(a as int)));
    while a < s.len() && is_whitespace(s[a])
        invariant
            from <= a <= s@.len(),
            trim_start(s@.skip(from as int)) == trim_start(s@.skip(a as int)),
        decreases s.len() - a,
    {
        assert(s@.skip(a as int).drop_first() =~= s@.skip(a + 1));
        a = a + 1;
    }
    let ghost t = s@.skip(a as int);
    assert(trim_start(t) == t);
    let mut b: usize = s.len();
    assert(t.take(b - a) =~= t);
    while b > a && is_whitespace(s[b - 1])
        invariant
            a <= b <= s@.len(),
            t == s@.skip(a as int),
            trim_end(t) == trim_end(t.take(b - a)),
        decreases b,
    {
        assert(t.take(b - a).last() == s@[b - 1]);
        assert(t.take(b - a).drop_last() =~= t.take(b - 1 - a));
        b = b - 1;
    }
    assert(trim_end(t.take(b - a)) == t.take(b - a));
    let mut r: Vec<char> = Vec::new();
    let mut i: usize = a;
    while i < b
        invariant
            a <= i <= b <= s@.len(),
            r@ =~= s@.subrange(a as int, i as int),
        decreases b - i,
    {
        r.push(s[i]);
        i = i + 1;
    }
    assert(r@ =~= t.take(b - a));
    r
}

} // verus!
