//! Reading the memory map of a Linux process (the text of `/proc/<pid>/maps`):
//! where a module is loaded and how far its image reaches.
//!
//! Each line of the map reads `start-end perms offset dev inode [path]`.
use vstd::prelude::*;
use crate::numparse::{parse_hex, parse_hex_spec};
use crate::text::{
    contains, contains_seq, split_any, split_on_any, split_words, starts_with, starts_with_seq,
    views, words,
};

verus! {

/// The largest `usize`, as an integer.
pub open spec fn usize_max() -> int {
    usize::MAX as int
}

/// The first of `ls` in which `m` occurs.
pub open spec fn first_line_with(ls: Seq<Seq<char>>, m: Seq<char>) -> Option<Seq<char>>
    decreases ls.len(),
{
    if ls.len() == 0 {
        None
    } else if contains_seq(ls[0], m) {
        Some(ls[0])
    } else {
        first_line_with(ls.drop_first(), m)
    }
}

/// The line that names a module is the earliest one: it is one of `ls`, the
/// module's name occurs in it, and in no line before it; where there is none,
/// the name occurs in no line at all.
pub proof fn law_first_line_is_earliest(ls: Seq<Seq<char>>, m: Seq<char>)
    ensures
        match first_line_with(ls, m) {
            Some(l) => exists|i: int|
                0 <= i < ls.len() && #[trigger] ls[i] == l && contains_seq(ls[i], m) && forall|
                    j: int,
                | 0 <= j < i ==> !contains_seq(#[trigger] ls[j], m),
            None => forall|j: int| 0 <= j < ls.len() ==> !contains_seq(#[trigger] ls[j], m),
        },
    decreases ls.len(),
{
    if ls.len() > 0 {
        if contains_seq(ls[0], m) {
            assert(ls[0] == ls[0]);
        } else {
            let rest = ls.drop_first();
            law_first_line_is_earliest(rest, m);
            match first_line_with(rest, m) {
                Some(l) => {
                    let i = choose|i: int|
                        0 <= i < rest.len() && #[trigger] rest[i] == l && contains_seq(rest[i], m)
                            && forall|j: int| 0 <= j < i ==> !contains_seq(#[trigger] rest[j], m);
                    assert(ls[i + 1] == rest[i]);
                    assert forall|j: int| 0 <= j < i + 1 implies !contains_seq(#[trigger] ls[j], m) by {
                        if j > 0 {
                            assert(ls[j] == rest[j - 1]);
                        }
                    }
                },
                None => {
                    assert forall|j: int| 0 <= j < ls.len() implies !contains_seq(#[trigger] ls[j], m) by {
                        if j > 0 {
                            assert(ls[j] == rest[j - 1]);
                        }
                    }
                },
            }
        }
    }
}

/// After the base line the walk continues over a line exactly when it starts where
/// the image ends so far, its permissions begin with the four characters
/// `r`, `-`, `x`, `p` and no path follows; any other such line (for instance
/// a contiguous `r--p` mapping) ends the image where it stands.
pub proof fn law_span_extends_only_over_rxp(ls: Seq<Seq<char>>, base: int, end: int)
    requires
        ls.len() > 0,
    ensures
        match entry_of(ls[0]) {
            Some((start, hi, perms, named)) => start != base && start == end ==> (span_end(
                ls,
                base,
                true,
                end,
            ) == if perms.len() >= 4 && perms[0] == 'r' && perms[1] == '-' && perms[2] == 'x'
                && perms[3] == 'p' && !named {
                span_end(ls.drop_first(), base, true, hi)
            } else {
                end
            }),
            None => span_end(ls, base, true, end) == span_end(ls.drop_first(), base, true, end),
        },
{
    match entry_of(ls[0]) {
        Some((start, hi, perms, named)) => {
            if start != base && start == end {
                if perms.len() >= 4 {
                    assert(perms.take(4) == seq![perms[0], perms[1], perms[2], perms[3]]);
                }
                if perms.len() >= 4 && perms[0] == 'r' && perms[1] == '-' && perms[2] == 'x'
                    && perms[3] == 'p' {
                    assert(perms.take(4) =~= rxp());
                }
                if starts_with_seq(perms, rxp()) {
                    assert(perms.take(4)[0] == 'r' && perms.take(4)[1] == '-' && perms.take(4)[2]
                        == 'x' && perms.take(4)[3] == 'p');
                }
            }
        },
        None => {},
    }
}

/// A line that starts at the base address (re)starts the image: the walk goes
/// on from that line's end, whatever came before; and before the base line is
/// seen, lines that do not start at the base change nothing.
pub proof fn law_base_line_sets_end(ls: Seq<Seq<char>>, base: int, found: bool, end: int)
    requires
        ls.len() > 0,
    ensures
        match entry_of(ls[0]) {
            Some((start, hi, perms, named)) => {
                &&& start == base ==> span_end(ls, base, found, end) == span_end(
                    ls.drop_first(),
                    base,
                    true,
                    hi,
                )
                &&& start != base ==> span_end(ls, base, false, end) == span_end(
                    ls.drop_first(),
                    base,
                    false,
                    end,
                )
            },
            None => true,
        },
{
}

/// The text before the first `-` of the first word of `line`: the start
/// address of the mapping, in hexadecimal.
pub open spec fn start_text(line: Seq<char>) -> Seq<char> {
    split_on_any(words(line)[0], seq!['-'])[0]
}

/// The start address that `line` gives, if its first word begins with a
/// hexadecimal number that fits a `usize`.
pub open spec fn line_start(line: Seq<char>) -> Option<int> {
    if words(line).len() == 0 {
        None
    } else {
        parse_hex_spec(start_text(line), usize_max())
    }
}

/// The fields of one map line that the image-size walk reads: the start and
/// end addresses (0 where one does not read as a number), the permissions,
/// and whether a path follows. Lines with fewer than five words, or without a
/// `-` in the first, give nothing.
pub open spec fn entry_of(line: Seq<char>) -> Option<(int, int, Seq<char>, bool)> {
    let p = words(line);
    if p.len() < 5 {
        None
    } else {
        let a = split_on_any(p[0], seq!['-']);
        if a.len() < 2 {
            None
        } else {
            Some(
                (
                    match parse_hex_spec(a[0], usize_max()) {
                        Some(v) => v,
                        None => 0,
                    },
                    match parse_hex_spec(a[1], usize_max()) {
                        Some(v) => v,
                        None => 0,
                    },
                    p[1],
                    p.len() >= 6,
                ),
            )
        }
    }
}

/// The permissions of a mapping that is readable, executable and private.
pub open spec fn rxp() -> Seq<char> {
    seq!['r', '-', 'x', 'p']
}

/// Walks the map lines `ls` for the image that starts at `base`: the line
/// that starts at `base` sets the end to its own end; after it, each line that
/// starts exactly at the current end, is `r-xp` and has no path extends the
/// end, and the first line that does not ends the walk. `found` says whether
/// the base line has been seen, `end` is the end so far.
pub open spec fn span_end(ls: Seq<Seq<char>>, base: int, found: bool, end: int) -> int
    decreases ls.len(),
{
    if ls.len() == 0 {
        end
    } else {
        match entry_of(ls[0]) {
            None => span_end(ls.drop_first(), base, found, end),
            Some((start, hi, perms, named)) => {
                if start == base {
                    span_end(ls.drop_first(), base, true, hi)
                } else if found {
                    if start == end && starts_with_seq(perms, rxp()) && !named {
                        span_end(ls.drop_first(), base, true, hi)
                    } else {
                        end
                    }
                } else {
                    span_end(ls.drop_first(), base, found, end)
                }
            },
        }
    }
}

/// The index of the first of `ls` in which `m` occurs.
pub fn find_line_with(ls: &Vec<Vec<char>>, m: &Vec<char>) -> (r: Option<usize>)
    ensures
        match r {
            Some(i) => i < ls@.len() && first_line_with(views(ls@), m@) == Some(ls@[i as int]@),
            None => first_line_with(views(ls@), m@) is None,
        },
{
    let ghost all = views(ls@);
    let mut i: usize = 0;
    assert(all.skip(0) =~= all);
    while i < ls.len()
        invariant
            all == views(ls@),
            0 <= i <= ls@.len(),
            first_line_with(all, m@) == first_line_with(all.skip(i as int), m@),
        decreases ls.len() - i,
    {
        assert(all.skip(i as int)[0] == ls@[i as int]@);
        if contains(&ls[i], m) {
            return Some(i);
        }
        assert(all.skip(i as int).drop_first() =~= all.skip(i + 1));
        i = i + 1;
    }
    None
}

/// The mapping's start address that `line` gives, as `line_start` says.
pub fn start_of_line(line: &Vec<char>) -> (r: Option<usize>)
    ensures
        match r {
            Some(v) => line_start(line@) == Some(v as int),
            None => line_start(line@) is None,
        },
{
    let parts = split_words(line);
    if parts.len() == 0 {
        return None;
    }
    let mut dash: Vec<char> = Vec::new();
    dash.push('-');
    assert(dash@ =~= seq!['-']);
    let addrs = split_any(&parts[0], &dash);
    proof {
        assert(parts@[0]@ == words(line@)[0]);
        assert(addrs@[0]@ == start_text(line@));
    }
    match parse_hex(&addrs[0], usize::MAX as u64) {
        Some(v) => Some(v as usize),
        None => None,
    }
}

/// The fields that `entry_of` reads from a line; the third says whether the
/// permissions begin with `r-xp`.
fn entry_of_line(line: &Vec<char>) -> (r: Option<(usize, usize, bool, bool)>)
    ensures
        match r {
            Some((start, hi, rx, named)) => entry_of(line@) matches Some((s, h, p, n)) && s
                == start && h == hi && rx == starts_with_seq(p, rxp()) && n == named,
            None => entry_of(line@) is None,
        },
{
    let parts = split_words(line);
    if parts.len() < 5 {
        return None;
    }
    let mut dash: Vec<char> = Vec::new();
    dash.push('-');
    assert(dash@ =~= seq!['-']);
    let addrs = split_any(&parts[0], &dash);
    if addrs.len() < 2 {
        return None;
    }
    let start = match parse_hex(&addrs[0], usize::MAX as u64) {
        Some(v) => v as usize,
        None => 0,
    };
    let hi = match parse_hex(&addrs[1], usize::MAX as u64) {
        Some(v) => v as usize,
        None => 0,
    };
    let mut perms_prefix: Vec<char> = Vec::new();
    perms_prefix.push('r');
    perms_prefix.push('-');
    perms_prefix.push('x');
    perms_prefix.push('p');
    assert(perms_prefix@ =~= rxp());
    let rx = starts_with(&parts[1], &perms_prefix);
    let named = parts.len() >= 6;
    proof {
        assert(parts@[0]@ == words(line@)[0]);
        assert(parts@[1]@ == words(line@)[1]);
        assert(addrs@[0]@ == split_on_any(words(line@)[0], seq!['-'])[0]);
        assert(addrs@[1]@ == split_on_any(words(line@)[0], seq!['-'])[1]);
    }
    Some((start, hi, rx, named))
}

/// Where the image that starts at `base` ends, as `span_end` walks `ls` from
/// the start.
pub fn walk_span_end(ls: &Vec<Vec<char>>, base: usize) -> (r: usize)
    ensures
        r as int == span_end(views(ls@), base as int, false, base as int),
{
    let ghost all = views(ls@);
    let mut found = false;
    let mut end: usize = base;
    let mut i: usize = 0;
    assert(all.skip(0) =~= all);
    while i < ls.len()
        invariant
            all == views(ls@),
            0 <= i <= ls@.len(),
            span_end(all, base as int, false, base as int) == span_end(
                all.skip(i as int),
                base as int,
                found,
                end as int,
            ),
        decreases ls.len() - i,
    {
        let ghost rest = all.skip(i as int);
        assert(rest[0] == ls@[i as int]@);
        assert(rest.drop_first() =~= all.skip(i + 1));
        match entry_of_line(&ls[i]) {
            None => {},
            Some((start, hi, rx, named)) => {
                if start == base {
                    found = true;
                    end = hi;
                } else if found {
                    if start == end && rx && !named {
                        end = hi;
                    } else {
                        return end;
                    }
                }
            },
        }
        i = i + 1;
    }
    end
}

} // verus!
