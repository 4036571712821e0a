//! Lines, trimming, and slices of text, for the protocol parsers: each
//! executable helper is verified against a small specification function on
//! character sequences.

use vstd::prelude::*;
use crate::cloning::push_char;
use crate::ip::find_char;

verus! {

pub open spec fn is_space(c: char) -> bool {
    c == ' ' || c == '\t' || c == '\r' || c == '\n'
}

fn is_space_exec(c: char) -> (r: bool)
    ensures
        r == is_space(c),
{
    c == ' ' || c == '\t' || c == '\r' || c == '\n'
}

pub open spec fn trim_start_spec(s: Seq<char>) -> Seq<char>
    decreases s.len(),
{
    if s.len() > 0 && is_space(s[0]) {
        trim_start_spec(s.skip(1))
    } else {
        s
    }
}

pub open spec fn trim_end_spec(s: Seq<char>) -> Seq<char>
    decreases s.len(),
{
    if s.len() > 0 && is_space(s.last()) {
        trim_end_spec(s.drop_last())
    } else {
        s
    }
}

/// The text without leading and trailing whitespace.
pub open spec fn trim_spec(s: Seq<char>) -> Seq<char> {
    trim_end_spec(trim_start_spec(s))
}

fn trim_start_range(v: &Vec<char>, from: usize, to: usize) -> (r: usize)
    requires
        from <= to <= v@.len(),
    ensures
        from <= r <= to,
        v@.subrange(r as int, to as int) == trim_start_spec(v@.subrange(from as int, to as int)),
    decreases to - from,
{
    let ghost s = v@.subrange(from as int, to as int);
    if from < to && is_space_exec(v[from]) {
        proof {
            assert(s[0] == v@[from as int]);
            assert(s.skip(1) =~= v@.subrange(from + 1, to as int));
        }
        trim_start_range(v, from + 1, to)
    } else {
        proof {
            if from < to {
                assert(s[0] == v@[from as int]);
            }
        }
        from
    }
}

fn trim_end_range(v: &Vec<char>, from: usize, to: usize) -> (r: usize)
    requires
        from <= to <= v@.len(),
    ensures
        from <= r <= to,
        v@.subrange(from as int, r as int) == trim_end_spec(v@.subrange(from as int, to as int)),
    decreases to - from,
{
    let ghost s = v@.subrange(from as int, to as int);
    if to > from && is_space_exec(v[to - 1]) {
        proof {
            assert(s.last() == v@[to - 1]);
            assert(s.drop_last() =~= v@.subrange(from as int, to - 1));
        }
        trim_end_range(v, from, to - 1)
    } else {
        proof {
            if to > from {
                assert(s.last() == v@[to - 1]);
            }
        }
        to
    }
}

/// The subrange that remains of `v[from..to]` after trimming whitespace
/// off both ends.
pub fn trim_range(v: &Vec<char>, from: usize, to: usize) -> (r: (usize, usize))
    requires
        from <= to <= v@.len(),
    ensures
        from <= r.0 <= r.1 <= to,
        v@.subrange(r.0 as int, r.1 as int) == trim_spec(v@.subrange(from as int, to as int)),
{
    let ts = trim_start_range(v, from, to);
    let te = trim_end_range(v, ts, to);
    (ts, te)
}

/// The text cut at every line feed; a trailing line feed closes the last
/// line rather than opening an empty one.
pub open spec fn split_lines(s: Seq<char>) -> Seq<Seq<char>>
    decreases s.len(),
{
    if s.len() == 0 {
        Seq::empty()
    } else {
        let i = find_char(s, '\n');
        if i < 0 || i + 1 > s.len() {
            seq![s]
        } else {
            seq![s.take(i)] + split_lines(s.skip(i + 1))
        }
    }
}

fn split_lines_rec(v: &Vec<char>, from: usize, out: &mut Vec<(usize, usize)>)
    requires
        from <= v@.len(),
    ensures
        final(out)@.len() == old(out)@.len() + split_lines(v@.skip(from as int)).len(),
        forall|j: int| 0 <= j < old(out)@.len() ==> final(out)@[j] == old(out)@[j],
        forall|j: int|
            old(out)@.len() <= j < final(out)@.len() ==> {
                let p = #[trigger] final(out)@[j];
                p.0 <= p.1 <= v@.len() && v@.subrange(p.0 as int, p.1 as int) == split_lines(
                    v@.skip(from as int),
                )[j - old(out)@.len()]
            },
    decreases v@.len() - from,
{
    let ghost s = v@.skip(from as int);
    if from >= v.len() {
        return ;
    }
    match crate::ip::find_char_from_pub(v, from, '\n') {
        None => {
            out.push((from, v.len()));
            proof {
                assert(split_lines(s) =~= seq![s]);
                assert(v@.subrange(from as int, v@.len() as int) =~= s);
            }
        },
        Some(i) => {
            proof {
                assert(s.take(i - from) =~= v@.subrange(from as int, i as int));
                assert(s.skip(i - from + 1) =~= v@.skip(i + 1));
            }
            out.push((from, i));
            split_lines_rec(v, i + 1, out);
        },
    }
}

/// Cuts the whole text into line ranges matching [`split_lines`].
pub fn split_lines_exec(v: &Vec<char>) -> (r: Vec<(usize, usize)>)
    ensures
        r@.len() == split_lines(v@).len(),
        forall|j: int|
            0 <= j < r@.len() ==> {
                let p = #[trigger] r@[j];
                p.0 <= p.1 <= v@.len() && v@.subrange(p.0 as int, p.1 as int) == split_lines(v@)[j]
            },
{
    let mut out: Vec<(usize, usize)> = Vec::new();
    proof {
        assert(v@.skip(0) =~= v@);
    }
    split_lines_rec(v, 0, &mut out);
    out
}


/// The text cut at every separator; a trailing separator opens a final
/// empty piece.
pub open spec fn split_on(s: Seq<char>, c: char) -> Seq<Seq<char>>
    decreases s.len(),
{
    let i = find_char(s, c);
    if i < 0 || i + 1 > s.len() {
        seq![s]
    } else {
        seq![s.take(i)] + split_on(s.skip(i + 1), c)
    }
}

fn split_on_rec(v: &Vec<char>, from: usize, to: usize, c: char, out: &mut Vec<(usize, usize)>)
    requires
        from <= to <= v@.len(),
    ensures
        final(out)@.len() == old(out)@.len() + split_on(
            v@.subrange(from as int, to as int),
            c,
        ).len(),
        forall|j: int| 0 <= j < old(out)@.len() ==> final(out)@[j] == old(out)@[j],
        forall|j: int|
            old(out)@.len() <= j < final(out)@.len() ==> {
                let p = #[trigger] final(out)@[j];
                p.0 <= p.1 <= v@.len() && v@.subrange(p.0 as int, p.1 as int) == split_on(
                    v@.subrange(from as int, to as int),
                    c,
                )[j - old(out)@.len()]
            },
    decreases to - from,
{
    let ghost s = v@.subrange(from as int, to as int);
    match crate::ip::find_char_range_pub(v, from, to, c) {
        None => {
            out.push((from, to));
            proof {
                assert(split_on(s, c) =~= seq![s]);
            }
        },
        Some(i) => {
            proof {
                assert(s.take(i - from) =~= v@.subrange(from as int, i as int));
                assert(s.skip(i - from + 1) =~= v@.subrange(i + 1, to as int));
            }
            out.push((from, i));
            split_on_rec(v, i + 1, to, c, out);
        },
    }
}

/// Cuts `v[from..to]` into separator-bounded ranges matching
/// [`split_on`].
pub fn split_on_exec(v: &Vec<char>, from: usize, to: usize, c: char) -> (r: Vec<(usize, usize)>)
    requires
        from <= to <= v@.len(),
    ensures
        r@.len() == split_on(v@.subrange(from as int, to as int), c).len(),
        forall|j: int|
            0 <= j < r@.len() ==> {
                let p = #[trigger] r@[j];
                p.0 <= p.1 <= v@.len() && v@.subrange(p.0 as int, p.1 as int) == split_on(
                    v@.subrange(from as int, to as int),
                    c,
                )[j]
            },
{
    let mut out: Vec<(usize, usize)> = Vec::new();
    split_on_rec(v, from, to, c, &mut out);
    out
}

/// Copies `v[from..to]` into a fresh string.
pub fn chars_range_to_string(v: &Vec<char>, from: usize, to: usize) -> (r: String)
    requires
        from <= to <= v@.len(),
    ensures
        r@ == v@.subrange(from as int, to as int),
{
    let mut r = String::new();
    let mut i: usize = from;
    while i < to
        invariant
            from <= i <= to <= v@.len(),
            r@ == v@.subrange(from as int, i as int),
        decreases to - i,
    {
        let c = v[i];
        push_char(&mut r, c);
        assert(r@ =~= v@.subrange(from as int, i + 1));
        i = i + 1;
    }
    r
}

} // verus!
