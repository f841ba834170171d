//! Picking the newest log file and the lines `callout logs` prints.
use vstd::prelude::*;
use crate::text::{
    chars_of, has_prefix, seq_lt, split_char, split_on, starts_with_str, str_lt, string_of,
};

verus! {

/// Daily log files are named "callout.log.<date>"; dates sort as text.
pub open spec fn is_log_name(name: Seq<char>) -> bool {
    has_prefix(name, "callout.log."@)
}

/// The greatest of `s` in text order.
pub open spec fn greatest(s: Seq<Seq<char>>) -> Option<Seq<char>>
    decreases s.len(),
{
    if s.len() == 0 {
        None
    } else {
        match greatest(s.drop_last()) {
            None => Some(s.last()),
            Some(m) => if seq_lt(m, s.last()) {
                Some(s.last())
            } else {
                Some(m)
            },
        }
    }
}

/// The newest log file among the names of a directory's entries: the
/// greatest of the names that start with "callout.log.".
pub fn latest_log_name(names: &Vec<String>) -> (r: Option<String>)
    ensures
        match r {
            Some(n) => greatest(names@.map_values(|s: String| s@).filter(|n: Seq<char>| is_log_name(n)))
                == Some(n@),
            None => greatest(names@.map_values(|s: String| s@).filter(|n: Seq<char>| is_log_name(n))) is None,
        },
{
    let ghost all = names@.map_values(|s: String| s@);
    let ghost keep = |n: Seq<char>| is_log_name(n);
    let mut best: Option<String> = None;
    let mut i: usize = 0;
    proof {
        assert(all.take(0).filter(keep) =~= Seq::<Seq<char>>::empty());
    }
    while i < names.len()
        invariant
            i <= names@.len(),
            all == names@.map_values(|s: String| s@),
            keep == (|n: Seq<char>| is_log_name(n)),
            match best {
                Some(b) => greatest(all.take(i as int).filter(keep)) == Some(b@),
                None => greatest(all.take(i as int).filter(keep)) is None,
            },
        decreases names.len() - i,
    {
        proof {
            reveal(Seq::filter);
            assert(all.take(i + 1).drop_last() =~= all.take(i as int));
            assert(all.take(i + 1).last() == names@[i as int]@);
        }
        let name = &names[i];
        if starts_with_str(name.as_str(), "callout.log.") {
            let ghost f = all.take(i as int).filter(keep);
            proof {
                assert(f.push(name@).drop_last() =~= f);
            }
            best = match best {
                None => Some(name.clone()),
                Some(b) => if str_lt(b.as_str(), name.as_str()) {
                    Some(name.clone())
                } else {
                    Some(b)
                },
            };
        }
        i = i + 1;
    }
    proof {
        assert(all.take(names@.len() as int) =~= all);
    }
    best
}

/// `l` without a final carriage return.
pub open spec fn strip_cr(l: Seq<char>) -> Seq<char> {
    if l.len() > 0 && l.last() == '\r' {
        l.drop_last()
    } else {
        l
    }
}

/// The lines of `s` (`str::lines`): split at '\n', a '\r' before the '\n'
/// dropped, and no empty line after a final '\n'.
pub open spec fn text_lines(s: Seq<char>) -> Seq<Seq<char>> {
    let pieces = split_on(s, '\n');
    let ended = pieces.drop_last().map_values(|l: Seq<char>| strip_cr(l));
    if pieces.last().len() > 0 {
        ended.push(pieces.last())
    } else {
        ended
    }
}

/// The last `n` elements of `s`, or all of them when there are fewer.
pub open spec fn last_n<A>(s: Seq<A>, n: int) -> Seq<A> {
    if n < s.len() {
        s.skip(s.len() - n)
    } else {
        s
    }
}

fn drop_cr(l: &str) -> (r: String)
    ensures
        r@ == strip_cr(l@),
{
    let v = chars_of(l);
    if v.len() > 0 && v[v.len() - 1] == '\r' {
        let r = string_of(&v, 0, v.len() - 1);
        assert(v@.subrange(0, v.len() - 1) =~= v@.drop_last());
        r
    } else {
        let r = string_of(&v, 0, v.len());
        assert(v@.subrange(0, v@.len() as int) =~= v@);
        r
    }
}

/// The last `n` lines of a log's contents.
pub fn recent_lines(contents: &str, n: usize) -> (r: Vec<String>)
    ensures
        r@.map_values(|s: String| s@) == last_n(text_lines(contents@), n as int),
{
    let pieces = split_char(contents, '\n');
    let ghost pv = pieces@.map_values(|s: String| s@);
    let ghost lines = text_lines(contents@);
    let count = pieces.len() - 1;
    let mut all: Vec<String> = Vec::new();
    let mut i: usize = 0;
    while i < count
        invariant
            count + 1 == pieces@.len(),
            pv == pieces@.map_values(|s: String| s@),
            pv == split_on(contents@, '\n'),
            i <= count,
            all@.map_values(|s: String| s@) == pv.drop_last().take(i as int).map_values(
                |l: Seq<char>| strip_cr(l),
            ),
        decreases count - i,
    {
        let ghost before = all@.map_values(|s: String| s@);
        all.push(drop_cr(pieces[i].as_str()));
        assert(all@.map_values(|s: String| s@) =~= before.push(strip_cr(pv[i as int])));
        assert(pv.drop_last().take(i + 1).map_values(|l: Seq<char>| strip_cr(l)) =~= pv.drop_last().take(
            i as int,
        ).map_values(|l: Seq<char>| strip_cr(l)).push(strip_cr(pv[i as int])));
        i = i + 1;
    }
    proof {
        assert(pv.drop_last().take(count as int) =~= pv.drop_last());
    }
    if !pieces[count].as_str().is_empty() {
        let ghost before = all@.map_values(|s: String| s@);
        all.push(pieces[count].clone());
        assert(all@.map_values(|s: String| s@) =~= before.push(pv.last()));
    }
    assert(all@.map_values(|s: String| s@) == lines);
    let start = if n < all.len() {
        all.len() - n
    } else {
        0
    };
    let mut r: Vec<String> = Vec::new();
    let mut j = start;
    while j < all.len()
        invariant
            start <= j <= all@.len(),
            r@.map_values(|s: String| s@) == all@.map_values(|s: String| s@).subrange(start as int, j as int),
        decreases all.len() - j,
    {
        let ghost before = r@.map_values(|s: String| s@);
        r.push(all[j].clone());
        assert(r@.map_values(|s: String| s@) =~= before.push(all@[j as int]@));
        assert(all@.map_values(|s: String| s@).subrange(start as int, j + 1) =~= all@.map_values(
            |s: String| s@,
        ).subrange(start as int, j as int).push(all@[j as int]@));
        j = j + 1;
    }
    assert(r@.map_values(|s: String| s@) =~= last_n(lines, n as int));
    r
}

} // verus!
