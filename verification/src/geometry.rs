//! Reading a window's size from the `KEY=value` lines that `xdotool
//! getwindowgeometry --shell` prints.
use vstd::prelude::*;
use crate::text::{chars_of, lines, split_lines, starts_with, starts_with_seq, trim_from, trim_seq, views};

verus! {

/// The trimmed value of the last of `ls` that begins with `key`.
pub open spec fn last_value(ls: Seq<Seq<char>>, key: Seq<char>) -> Option<Seq<char>>
    decreases ls.len(),
{
    if ls.len() == 0 {
        None
    } else if starts_with_seq(ls.last(), key) {
        Some(trim_seq(ls.last().skip(key.len() as int)))
    } else {
        last_value(ls.drop_last(), key)
    }
}

/// The trimmed value of the last line of `text` that begins with `key`.
pub fn value_of(text: &str, key: &str) -> (r: Option<Vec<char>>)
    ensures
        match r {
            Some(v) => last_value(lines(text@), key@) == Some(v@),
            None => last_value(lines(text@), key@) is None,
        },
{
    let cs = chars_of(text);
    let ls = split_lines(&cs);
    let k = chars_of(key);
    let ghost all = views(ls@);
    assert(all == lines(text@));
    let mut i: usize = ls.len();
    assert(all.take(i as int) =~= all);
    while i > 0
        invariant
            all == views(ls@),
            all == lines(text@),
            0 <= i <= ls@.len(),
            k@ == key@,
            last_value(all, key@) == last_value(all.take(i as int), key@),
        decreases i,
    {
        let ghost part = all.take(i as int);
        assert(part.last() == ls@[i - 1]@);
        assert(part.drop_last() =~= all.take(i - 1));
        if starts_with(&ls[i - 1], &k) {
            let v = trim_from(&ls[i - 1], k.len());
            assert(starts_with_seq(part.last(), key@));
            assert(v@ == trim_seq(part.last().skip(key@.len() as int)));
            assert(part.len() > 0);
            assert(last_value(part, key@) == Some(v@));
            return Some(v);
        }
        i = i - 1;
    }
    None
}

/// The texts of the width and the height of a window: the trimmed values of
/// the last `WIDTH=` and the last `HEIGHT=` line of `text`.
pub fn geometry_fields(text: &str) -> (r: (Option<Vec<char>>, Option<Vec<char>>))
    ensures
        match r.0 {
            Some(v) => last_value(lines(text@), "WIDTH="@) == Some(v@),
            None => last_value(lines(text@), "WIDTH="@) is None,
        },
        match r.1 {
            Some(v) => last_value(lines(text@), "HEIGHT="@) == Some(v@),
            None => last_value(lines(text@), "HEIGHT="@) is None,
        },
{
    (value_of(text, "WIDTH="), value_of(text, "HEIGHT="))
}

} // verus!
